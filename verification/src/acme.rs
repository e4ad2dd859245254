//! An example backend: a store of ACME DNS-01 challenge values, keyed by
//! fully-qualified domain name and served under `TXT` lookups.
//!
//! The store answers a gateway request whose path is the reversed-label
//! form (`/com/example/_acme-challenge/TXT`): the last segment must be
//! `TXT`, and the remaining segments, reversed and joined with dots plus a
//! trailing dot, name the challenge.

use vstd::prelude::*;

use crate::text::chars_of;

verus! {

/// One stored challenge: the name it answers for and its value.
#[derive(Clone, Debug, PartialEq, Eq)]
pub struct ChallengeEntry {
    pub fqdn: String,
    pub value: String,
}

/// The mathematical value of a stored challenge.
pub struct ChallengeEntryModel {
    pub fqdn: Seq<char>,
    pub value: Seq<char>,
}

impl View for ChallengeEntry {
    type V = ChallengeEntryModel;

    open spec fn view(&self) -> ChallengeEntryModel {
        ChallengeEntryModel { fqdn: self.fqdn@, value: self.value@ }
    }
}

impl DeepView for ChallengeEntry {
    type V = ChallengeEntryModel;

    open spec fn deep_view(&self) -> ChallengeEntryModel {
        self.view()
    }
}

/// The value stored under `k`: the first entry with that name wins.
pub open spec fn spec_get(entries: Seq<ChallengeEntryModel>, k: Seq<char>) -> Option<Seq<char>>
    decreases entries.len(),
{
    if entries.len() == 0 {
        None
    } else if entries[0].fqdn == k {
        Some(entries[0].value)
    } else {
        spec_get(entries.drop_first(), k)
    }
}

/// The entries with the name `fqdn` taken out.
pub open spec fn retain_without(
    entries: Seq<ChallengeEntryModel>,
    fqdn: Seq<char>,
) -> Seq<ChallengeEntryModel>
    decreases entries.len(),
{
    if entries.len() == 0 {
        Seq::empty()
    } else if entries[0].fqdn == fqdn {
        retain_without(entries.drop_first(), fqdn)
    } else {
        seq![entries[0]] + retain_without(entries.drop_first(), fqdn)
    }
}

/// Taking out one name empties that name and leaves every other alone.
proof fn lemma_spec_get_retain(entries: Seq<ChallengeEntryModel>, fqdn: Seq<char>, k: Seq<char>)
    ensures
        spec_get(retain_without(entries, fqdn), k) == if k == fqdn {
            None
        } else {
            spec_get(entries, k)
        },
    decreases entries.len(),
{
    if entries.len() > 0 {
        lemma_spec_get_retain(entries.drop_first(), fqdn, k);
        if entries[0].fqdn != fqdn {
            let r = seq![entries[0]] + retain_without(entries.drop_first(), fqdn);
            assert(r[0] == entries[0]);
            assert(r.drop_first() =~= retain_without(entries.drop_first(), fqdn));
        }
    }
}

/// The segments joined into a name, each terminated by a dot.
pub open spec fn dotted(segs: Seq<Seq<char>>) -> Seq<char>
    decreases segs.len(),
{
    if segs.len() == 0 {
        Seq::empty()
    } else {
        segs[0] + seq!['.'] + dotted(segs.drop_first())
    }
}

/// Appending one segment extends the joined name at its end.
proof fn lemma_dotted_push(segs: Seq<Seq<char>>, s: Seq<char>)
    ensures
        dotted(segs.push(s)) =~= dotted(segs) + s + seq!['.'],
    decreases segs.len(),
{
    let p = segs.push(s);
    if segs.len() == 0 {
        assert(p[0] == s);
        assert(p.drop_first() =~= Seq::<Seq<char>>::empty());
        assert(dotted(p) == s + seq!['.'] + dotted(Seq::<Seq<char>>::empty()));
        assert(dotted(p) =~= dotted(segs) + s + seq!['.']);
    } else {
        assert(p[0] == segs[0]);
        assert(p.drop_first() =~= segs.drop_first().push(s));
        lemma_dotted_push(segs.drop_first(), s);
        assert(dotted(p) == segs[0] + seq!['.'] + dotted(segs.drop_first().push(s)));
        assert(dotted(segs.drop_first().push(s)) == dotted(segs.drop_first()) + s + seq!['.']);
        assert(dotted(segs) == segs[0] + seq!['.'] + dotted(segs.drop_first()));
        assert(dotted(p) =~= dotted(segs) + s + seq!['.']);
    }
}

/// The challenge name a request path addresses: the path segments (the
/// record type already taken off) reversed and joined with dots, with a
/// trailing dot; the bare root dot when no segment is left.
pub open spec fn fqdn_of(segs: Seq<Seq<char>>) -> Seq<char> {
    if segs.len() == 0 {
        seq!['.']
    } else {
        dotted(segs.reverse())
    }
}

/// What the store answers for a request path.
#[derive(Clone, Copy, Debug, PartialEq, Eq, Structural)]
pub enum ChallengeError {
    /// The path has no segments, so no record type was named.
    MissingRecordType,
    /// The last segment is not `TXT`, the only type the store serves.
    UnsupportedRecordType,
    /// No challenge is stored under the path's name.
    MissingChallenge,
}

/// The answer for a request path against a store: the challenge stored
/// under the name the path addresses, under a trailing `TXT` segment.
pub open spec fn challenge_response(
    entries: Seq<ChallengeEntryModel>,
    segs: Seq<Seq<char>>,
) -> Result<Seq<char>, ChallengeError> {
    if segs.len() == 0 {
        Err(ChallengeError::MissingRecordType)
    } else if segs.last() != seq!['T', 'X', 'T'] {
        Err(ChallengeError::UnsupportedRecordType)
    } else {
        match spec_get(entries, fqdn_of(segs.drop_last())) {
            Some(v) => Ok(v),
            None => Err(ChallengeError::MissingChallenge),
        }
    }
}

/// The challenge store.
#[derive(Clone, Debug)]
pub struct ChallengeStore {
    pub entries: Vec<ChallengeEntry>,
}

/// The store as its HTTP service launches it: empty.
pub fn rocket() -> (r: ChallengeStore)
    ensures
        r@.len() == 0,
{
    let r = ChallengeStore { entries: Vec::new() };
    proof {
        assert(r@ =~= Seq::<ChallengeEntryModel>::empty());
    }
    r
}

impl View for ChallengeStore {
    type V = Seq<ChallengeEntryModel>;

    open spec fn view(&self) -> Seq<ChallengeEntryModel> {
        self.entries.deep_view()
    }
}

/// Whether `s` is exactly the mnemonic `TXT`.
fn is_txt_segment(s: &str) -> (r: bool)
    ensures
        r == (s@ == seq!['T', 'X', 'T']),
{
    let v = chars_of(s);
    if v.len() == 3 && v[0] == 'T' && v[1] == 'X' && v[2] == 'T' {
        proof {
            assert(s@ =~= seq!['T', 'X', 'T']);
        }
        true
    } else {
        proof {
            if s@ == seq!['T', 'X', 'T'] {
                assert(v@.len() == 3);
                assert(v@[0] == 'T' && v@[1] == 'X' && v@[2] == 'T');
            }
        }
        false
    }
}

impl ChallengeStore {
    /// Answer a request path, exactly as [`challenge_response`] states it:
    /// the stored challenge as a one-element value list, or the error.
    pub fn get_impl(&self, path: &Vec<String>) -> (r: Result<Vec<String>, ChallengeError>)
        ensures
            match r {
                Ok(vals) => challenge_response(self@, path.deep_view()) matches Ok(v)
                    && vals.deep_view() == seq![v],
                Err(e) => challenge_response(self@, path.deep_view()) == Err::<Seq<char>,
                    ChallengeError,
                >(e),
            },
    {
        let ghost segs = path.deep_view();
        if path.len() == 0 {
            return Err(ChallengeError::MissingRecordType);
        }
        if !is_txt_segment(path[path.len() - 1].as_str()) {
            proof {
                assert(segs.last() == path@[path@.len() - 1]@);
            }
            return Err(ChallengeError::UnsupportedRecordType);
        }
        proof {
            assert(segs.last() == path@[path@.len() - 1]@);
        }
        // The name: the remaining segments, most significant first in the
        // path, reversed back to the usual order and joined with dots.
        let m = path.len() - 1;
        let mut fqdn: String = String::new();
        proof {
            assert(segs.drop_last().subrange(m as int, m as int).reverse()
                =~= Seq::<Seq<char>>::empty());
            assert(fqdn@ =~= dotted(segs.drop_last().subrange(m as int, m as int).reverse()));
        }
        let mut k = m;
        while k > 0
            invariant
                m == path@.len() - 1,
                segs == path.deep_view(),
                k <= m,
                fqdn@ == dotted(segs.drop_last().subrange(k as int, m as int).reverse()),
            decreases k,
        {
            k = k - 1;
            let ghost pre = segs.drop_last().subrange(k as int + 1, m as int).reverse();
            fqdn.append(path[k].as_str());
            fqdn.append(".");
            proof {
                reveal_strlit(".");
                assert("."@ =~= seq!['.']);
                assert(segs.drop_last()[k as int] == path@[k as int]@);
                assert(segs.drop_last().subrange(k as int, m as int).reverse() =~= pre.push(
                    segs.drop_last()[k as int],
                ));
                lemma_dotted_push(pre, segs.drop_last()[k as int]);
                assert(fqdn@ =~= dotted(segs.drop_last().subrange(k as int, m as int).reverse()));
            }
        }
        let name = if m == 0 {
            proof {
                reveal_strlit(".");
                assert("."@ =~= seq!['.']);
            }
            String::from_str(".")
        } else {
            fqdn
        };
        proof {
            assert(segs.drop_last().subrange(0, m as int) =~= segs.drop_last());
            assert(name@ == fqdn_of(segs.drop_last()));
        }
        match self.lookup_challenge(name.as_str()) {
            Some(value) => {
                let mut vals: Vec<String> = Vec::new();
                vals.push(value);
                proof {
                    assert(vals.deep_view() =~= seq![
                        spec_get(self@, fqdn_of(segs.drop_last()))->Some_0,
                    ]);
                }
                Ok(vals)
            },
            None => Err(ChallengeError::MissingChallenge),
        }
    }

    /// The value stored under `k`, as [`spec_get`] states it.
    fn lookup_challenge(&self, k: &str) -> (r: Option<String>)
        ensures
            match r {
                Some(v) => spec_get(self@, k@) == Some(v@),
                None => spec_get(self@, k@) is None,
            },
    {
        let mut i: usize = 0;
        proof {
            assert(self@.skip(0) =~= self@);
        }
        while i < self.entries.len()
            invariant
                i <= self@.len(),
                spec_get(self@, k@) == spec_get(self@.skip(i as int), k@),
            decreases self@.len() - i,
        {
            proof {
                assert(self@.skip(i as int)[0] == self@[i as int]);
                assert(self@.skip(i as int).drop_first() =~= self@.skip(i as int + 1));
            }
            if string_eq_str(&self.entries[i].fqdn, k) {
                return Some(self.entries[i].value.clone());
            }
            i += 1;
        }
        proof {
            assert(self@.skip(self@.len() as int).len() == 0);
        }
        None
    }

    /// Answer a request path for the HTTP surface: any failure is the one
    /// internal-server-error status.
    pub fn get(&self, path: &Vec<String>) -> (r: Result<Vec<String>, u16>)
        ensures
            match r {
                Ok(vals) => challenge_response(self@, path.deep_view()) matches Ok(v)
                    && vals.deep_view() == seq![v],
                Err(code) => code == 500 && challenge_response(self@, path.deep_view()) is Err,
            },
    {
        match self.get_impl(path) {
            Ok(vals) => Ok(vals),
            Err(_) => Err(500),
        }
    }

    /// Store `value` under `fqdn`, replacing whatever was there.
    pub fn present(&mut self, fqdn: &str, value: &str)
        ensures
            spec_get(final(self)@, fqdn@) == Some(value@),
            forall|k: Seq<char>|
                k != fqdn@ ==> #[trigger] spec_get(final(self)@, k) == spec_get(old(self)@, k),
    {
        let entry = ChallengeEntry { fqdn: fqdn.to_owned(), value: value.to_owned() };
        let ghost pre = self@;
        self.entries.insert(0, entry);
        proof {
            assert(self@[0].fqdn == fqdn@);
            assert(self@[0].value == value@);
            assert(self@.drop_first() =~= pre);
        }
    }

    /// Take out whatever is stored under `fqdn`.
    pub fn cleanup(&mut self, fqdn: &str)
        ensures
            spec_get(final(self)@, fqdn@) is None,
            forall|k: Seq<char>|
                k != fqdn@ ==> #[trigger] spec_get(final(self)@, k) == spec_get(old(self)@, k),
    {
        let ghost pre = self@;
        let mut kept: Vec<ChallengeEntry> = Vec::new();
        let mut i: usize = 0;
        proof {
            assert(kept.deep_view() =~= Seq::<ChallengeEntryModel>::empty());
            assert(pre.skip(0) =~= pre);
            assert(retain_without(pre, fqdn@) =~= kept.deep_view() + retain_without(
                pre.skip(0),
                fqdn@,
            ));
        }
        while i < self.entries.len()
            invariant
                pre == self@,
                i <= pre.len(),
                retain_without(pre, fqdn@) == kept.deep_view() + retain_without(
                    pre.skip(i as int),
                    fqdn@,
                ),
            decreases pre.len() - i,
        {
            proof {
                assert(pre.skip(i as int)[0] == pre[i as int]);
                assert(pre.skip(i as int).drop_first() =~= pre.skip(i as int + 1));
            }
            if string_eq_str(&self.entries[i].fqdn, fqdn) {
                i += 1;
            } else {
                let ghost pre_kept = kept.deep_view();
                let item = ChallengeEntry {
                    fqdn: self.entries[i].fqdn.clone(),
                    value: self.entries[i].value.clone(),
                };
                proof {
                    assert(item@ == pre[i as int]);
                }
                kept.push(item);
                i += 1;
                proof {
                    assert(kept.deep_view() =~= pre_kept.push(pre[i - 1]));
                    assert(pre_kept + (seq![pre[i - 1]] + retain_without(pre.skip(i as int), fqdn@))
                        =~= kept.deep_view() + retain_without(pre.skip(i as int), fqdn@));
                }
            }
        }
        proof {
            assert(pre.skip(pre.len() as int).len() == 0);
            assert(kept.deep_view() + retain_without(pre.skip(pre.len() as int), fqdn@)
                =~= kept.deep_view());
        }
        self.entries = kept;
        proof {
            assert(self@ == retain_without(pre, fqdn@));
            lemma_spec_get_retain(pre, fqdn@, fqdn@);
            assert forall|k: Seq<char>| k != fqdn@ implies #[trigger] spec_get(self@, k)
                == spec_get(pre, k) by {
                lemma_spec_get_retain(pre, fqdn@, k);
            }
        }
    }
}

/// Whether a stored string and a borrowed string hold the same text.
fn string_eq_str(a: &String, b: &str) -> (r: bool)
    ensures
        r == (a@ == b@),
{
    let va = chars_of(a.as_str());
    let vb = chars_of(b);
    if va.len() != vb.len() {
        return false;
    }
    let mut i: usize = 0;
    while i < va.len()
        invariant
            va@ == a@,
            vb@ == b@,
            va@.len() == vb@.len(),
            i <= va@.len(),
            forall|k: int| 0 <= k < i ==> va@[k] == vb@[k],
        decreases va@.len() - i,
    {
        if va[i] != vb[i] {
            return false;
        }
        i += 1;
    }
    proof {
        assert(a@ =~= b@);
    }
    true
}

} // verus!
