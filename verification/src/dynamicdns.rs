//! An example backend: a store holding one dynamically updated record
//! value, served as the one-element array the gateway expects.

use vstd::prelude::*;

verus! {

/// The store: at most one record value.
#[derive(Clone, Debug)]
pub struct DynamicDns {
    pub record: Option<String>,
}

/// The store as its HTTP service launches it: empty.
pub fn rocket() -> (r: DynamicDns)
    ensures
        r.record is None,
{
    DynamicDns { record: None }
}

impl DynamicDns {
    /// The stored record as a one-element value list, or 404 when nothing
    /// has been set.
    pub fn get(&self) -> (r: Result<Vec<String>, u16>)
        ensures
            match self.record {
                Some(rec) => r matches Ok(v) && v.deep_view() == seq![rec@],
                None => r == Err::<Vec<String>, u16>(404),
            },
    {
        match &self.record {
            Some(rec) => {
                let mut v: Vec<String> = Vec::new();
                v.push(rec.clone());
                proof {
                    assert(v.deep_view() =~= seq![self.record->Some_0@]);
                }
                Ok(v)
            },
            None => Err(404),
        }
    }

    /// Replace the stored record with `record`.
    pub fn set(&mut self, record: String)
        ensures
            final(self).record matches Some(v) && v@ == record@,
    {
        self.record = Some(record);
    }
}

} // verus!
