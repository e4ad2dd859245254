//! Domain names: the zone origin, query names, and NS record values.
//!
//! A name is a sequence of labels, most significant label last in the usual
//! left-to-right notation (`foo.example.com` has labels `foo`, `example`,
//! `com`).  The crate stores labels canonically lowercased, so name
//! comparison is case-insensitive, and the root name has no labels.
//!
//! The textual grammar, stated by [`name_of`]: the root is written `.`;
//! any other name is one or more non-empty labels of letters, digits, `-`
//! and `_`, joined by `.`, with one optional trailing dot.

use vstd::prelude::*;

use crate::text::{ascii_lower, chars_of, string_from_chars, to_lower_char, to_lower_seq};

verus! {

/// Whether `c` may appear in a label as stored (canonical lowercase form).
pub open spec fn is_label_char(c: char) -> bool {
    ('a' <= c && c <= 'z') || ('0' <= c && c <= '9') || c == '-' || c == '_'
}

/// Whether `c` may appear in a label as written (uppercase still allowed).
pub open spec fn is_name_char(c: char) -> bool {
    is_label_char(c) || ('A' <= c && c <= 'Z')
}

/// A stored label: non-empty, canonical characters only.
pub open spec fn valid_label(l: Seq<char>) -> bool {
    l.len() >= 1 && forall|i: int| 0 <= i < l.len() ==> is_label_char(#[trigger] l[i])
}

/// A stored name: every label valid.
pub open spec fn valid_labels(ls: Seq<Seq<char>>) -> bool {
    forall|i: int| 0 <= i < ls.len() ==> valid_label(#[trigger] ls[i])
}

/// Length of the run of name characters in `s` starting at `i`.
pub open spec fn label_run_len(s: Seq<char>, i: int) -> nat
    decreases s.len() - i,
{
    if i < 0 || i >= s.len() || !is_name_char(s[i]) {
        0
    } else {
        (1 + label_run_len(s, i + 1)) as nat
    }
}

/// Parse the labels of `s` from `i` on: maximal runs of name characters,
/// joined by `.`, one trailing dot allowed.  Labels come back lowercased.
pub open spec fn labels_from(s: Seq<char>, i: int) -> Option<Seq<Seq<char>>>
    decreases s.len() - i,
{
    if i < 0 || i > s.len() {
        None
    } else if i == s.len() {
        Some(Seq::empty())
    } else {
        let n = label_run_len(s, i);
        if n == 0 {
            None
        } else {
            let label = to_lower_seq(s.subrange(i, i + n));
            if i + n == s.len() {
                Some(seq![label])
            } else if i + n < s.len() && s[i + n] == '.' {
                match labels_from(s, i + n + 1) {
                    Some(rest) => Some(seq![label] + rest),
                    None => None,
                }
            } else {
                None
            }
        }
    }
}

/// The name grammar over a whole string: `.` is the root; the empty string
/// is not a name; anything else parses by [`labels_from`].
pub open spec fn name_of(s: Seq<char>) -> Option<Seq<Seq<char>>> {
    if s.len() == 1 && s[0] == '.' {
        Some(Seq::empty())
    } else if s.len() == 0 {
        None
    } else {
        labels_from(s, 0)
    }
}

/// A domain name, held as its lowercased labels in left-to-right order.
#[derive(Clone, Debug, PartialEq, Eq)]
pub struct DnsName {
    pub labels: Vec<String>,
}

impl View for DnsName {
    type V = Seq<Seq<char>>;

    /// The mathematical value of the name: its labels as character
    /// sequences.
    open spec fn view(&self) -> Seq<Seq<char>> {
        self.labels.deep_view()
    }
}

impl DnsName {
    /// Well-formed: every stored label is non-empty and canonical.
    pub open spec fn wf(&self) -> bool {
        valid_labels(self.view())
    }

    /// The root name (no labels).
    pub fn root() -> (r: DnsName)
        ensures
            r.view() == Seq::<Seq<char>>::empty(),
            r.wf(),
    {
        let r = DnsName { labels: Vec::new() };
        proof {
            assert(r.view() =~= Seq::<Seq<char>>::empty());
        }
        r
    }

    /// Parse a name from text, exactly as [`name_of`] states the grammar.
    pub fn parse(s: &str) -> (r: Option<DnsName>)
        ensures
            match r {
                Some(n) => name_of(s@) == Some(n.view()) && n.wf(),
                None => name_of(s@) is None,
            },
    {
        let v = chars_of(s);
        if v.len() == 1 && v[0] == '.' {
            return Some(DnsName::root());
        }
        if v.len() == 0 {
            return None;
        }
        match parse_labels(&v) {
            Some(labels) => {
                let n = DnsName { labels };
                proof {
                    lemma_labels_from_valid(v@, 0);
                }
                Some(n)
            },
            None => None,
        }
    }

    /// An owned copy of the name, label for label.
    pub fn duplicate(&self) -> (r: DnsName)
        ensures
            r@ == self@,
    {
        let mut labels: Vec<String> = Vec::new();
        let mut i: usize = 0;
        while i < self.labels.len()
            invariant
                i <= self.labels@.len(),
                labels.deep_view() =~= self.labels.deep_view().subrange(0, i as int),
            decreases self.labels@.len() - i,
        {
            let ghost pre_dv = labels.deep_view();
            let item = self.labels[i].clone();
            proof {
                assert(item@ == self.labels.deep_view()[i as int]);
            }
            labels.push(item);
            i += 1;
            proof {
                assert(labels.deep_view() =~= pre_dv.push(self.labels.deep_view()[i - 1]));
                assert(labels.deep_view() =~= self.labels.deep_view().subrange(0, i as int));
            }
        }
        let r = DnsName { labels };
        proof {
            assert(self.labels.deep_view().subrange(0, self.labels@.len() as int)
                =~= self.labels.deep_view());
            assert(r@ =~= self@);
        }
        r
    }

    /// The name `label.self`: one label prepended, as for the `ns` and
    /// `hostmaster` names of a synthesized SOA record.
    pub fn prepend(&self, label: &str) -> (r: DnsName)
        requires
            self.wf(),
            valid_label(label@),
        ensures
            r.view() == seq![label@] + self.view(),
            r.wf(),
    {
        let mut labels: Vec<String> = Vec::new();
        labels.push(label.to_owned());
        proof {
            assert(labels.deep_view() =~= seq![label@]);
        }
        let mut i: usize = 0;
        while i < self.labels.len()
            invariant
                i <= self.labels@.len(),
                labels.deep_view() =~= seq![label@] + self.labels.deep_view().subrange(0, i as int),
            decreases self.labels@.len() - i,
        {
            let ghost pre_dv = labels.deep_view();
            let item = self.labels[i].clone();
            proof {
                assert(item@ == self.labels.deep_view()[i as int]);
            }
            labels.push(item);
            i += 1;
            proof {
                assert(labels.deep_view() =~= pre_dv.push(self.labels.deep_view()[i - 1]));
                assert(labels.deep_view() =~= seq![label@] + self.labels.deep_view().subrange(
                    0,
                    i as int,
                ));
            }
        }
        let r = DnsName { labels };
        proof {
            assert(self.labels.deep_view().subrange(0, self.labels@.len() as int)
                =~= self.labels.deep_view());
            assert(r.view() =~= seq![label@] + self.view());
        }
        r
    }
}

/// Name characters exactly on `[i, j)` with a non-name character (or the
/// end) at `j` make the run at `i` exactly `j - i` long.
proof fn lemma_label_run_len_exact(s: Seq<char>, i: int, j: int)
    requires
        0 <= i <= j <= s.len(),
        forall|k: int| i <= k < j ==> is_name_char(#[trigger] s[k]),
        j == s.len() || !is_name_char(s[j]),
    ensures
        label_run_len(s, i) == j - i,
    decreases j - i,
{
    if i < j {
        assert(is_name_char(s[i]));
        lemma_label_run_len_exact(s, i + 1, j);
    }
}

/// Whatever `labels_from` returns is a sequence of valid labels.
proof fn lemma_labels_from_valid(s: Seq<char>, i: int)
    requires
        labels_from(s, i) is Some,
    ensures
        valid_labels(labels_from(s, i)->Some_0),
    decreases s.len() - i,
{
    if 0 <= i < s.len() {
        let n = label_run_len(s, i);
        if n > 0 {
            lemma_label_run_chars(s, i, i + n);
            let label = to_lower_seq(s.subrange(i, i + n));
            assert forall|k: int| 0 <= k < label.len() implies is_label_char(#[trigger] label[k]) by {
                assert(is_name_char(s.subrange(i, i + n)[k]));
            }
            assert(valid_label(label));
            if i + n == s.len() {
                assert(valid_labels(seq![label]));
            } else if s[i + n] == '.' {
                lemma_labels_from_valid(s, i + n + 1);
                let rest = labels_from(s, i + n + 1)->Some_0;
                assert forall|k: int| 0 <= k < (seq![label] + rest).len() implies valid_label(
                    #[trigger] (seq![label] + rest)[k],
                ) by {
                    if k > 0 {
                        assert((seq![label] + rest)[k] == rest[k - 1]);
                    }
                }
            }
        }
    }
}

/// The label run at `i` covers name characters only.
proof fn lemma_label_run_chars(s: Seq<char>, i: int, j: int)
    requires
        0 <= i <= j,
        i <= s.len(),
        j <= i + label_run_len(s, i),
    ensures
        j <= s.len(),
        forall|k: int| i <= k < j ==> is_name_char(#[trigger] s[k]),
    decreases j - i,
{
    if i < j {
        lemma_label_run_chars(s, i + 1, j);
    }
}

/// Parse all labels of `v`, as [`labels_from`] at index 0 states it.
fn parse_labels(v: &Vec<char>) -> (r: Option<Vec<String>>)
    requires
        v@.len() > 0,
    ensures
        match r {
            Some(ls) => labels_from(v@, 0) == Some(ls.deep_view()),
            None => labels_from(v@, 0) is None,
        },
{
    let ghost s = v@;
    let mut labels: Vec<String> = Vec::new();
    let mut i: usize = 0;
    loop
        invariant
            s == v@,
            0 <= i < s.len(),
            labels_from(s, 0) == (match labels_from(s, i as int) {
                Some(rest) => Some(labels.deep_view() + rest),
                None => None::<Seq<Seq<char>>>,
            }),
        decreases s.len() - i,
    {
        // One label: the maximal run of name characters at `i`.
        let mut j: usize = i;
        let mut label: Vec<char> = Vec::new();
        while j < v.len() && is_name_char_exec(v[j])
            invariant
                s == v@,
                i <= j <= s.len(),
                forall|k: int| i <= k < j ==> is_name_char(#[trigger] s[k]),
                label@.len() == j - i,
                forall|k: int| 0 <= k < j - i ==> label@[k] == to_lower_char(#[trigger] s[i + k]),
            decreases s.len() - j,
        {
            label.push(ascii_lower(v[j]));
            j += 1;
        }
        proof {
            lemma_label_run_len_exact(s, i as int, j as int);
        }
        if j == i {
            return None;
        }
        let ghost lowered = to_lower_seq(s.subrange(i as int, j as int));
        proof {
            assert forall|k: int| 0 <= k < label@.len() implies label@[k] == lowered[k] by {
                assert(s.subrange(i as int, j as int)[k] == s[i + k]);
                assert(label@[k] == to_lower_char(s[i + k]));
            }
            assert(label@ =~= lowered);
        }
        let owned = string_from_chars(&label);
        let ghost pre_dv = labels.deep_view();
        labels.push(owned);
        proof {
            assert(labels.deep_view() =~= pre_dv + seq![lowered]);
        }
        if j == v.len() {
            proof {
                assert(labels_from(s, i as int) == Some(seq![lowered]));
                assert(pre_dv + seq![lowered] =~= labels.deep_view());
            }
            return Some(labels);
        }
        if v[j] == '.' {
            if j + 1 == v.len() {
                // Trailing dot: the name ends here.
                proof {
                    assert(labels_from(s, j as int + 1) == Some(Seq::<Seq<char>>::empty()));
                    assert(labels_from(s, i as int) == Some(seq![lowered] + Seq::<Seq<char>>::empty()));
                    assert(pre_dv + (seq![lowered] + Seq::<Seq<char>>::empty()) =~= labels.deep_view());
                }
                return Some(labels);
            }
            proof {
                assert(labels_from(s, i as int) == (match labels_from(s, j as int + 1) {
                    Some(rest) => Some(seq![lowered] + rest),
                    None => None::<Seq<Seq<char>>>,
                }));
                if labels_from(s, j as int + 1) is Some {
                    let rest = labels_from(s, j as int + 1)->Some_0;
                    assert(pre_dv + (seq![lowered] + rest) =~= labels.deep_view() + rest);
                }
            }
            i = j + 1;
        } else {
            return None;
        }
    }
}

/// Executable test for [`is_name_char`].
fn is_name_char_exec(c: char) -> (r: bool)
    ensures
        r == is_name_char(c),
{
    ('a' <= c && c <= 'z') || ('0' <= c && c <= '9') || c == '-' || c == '_' || ('A' <= c && c
        <= 'Z')
}

} // verus!
