//! Building the backend request URL for a query.
//!
//! The URL is the configured endpoint, given a trailing `/` if its text
//! does not already end in one, followed by the query name's labels in
//! reverse order (most significant first) and the record type's uppercase
//! mnemonic, each as a `/`-terminated path segment.  [`built_url`] states
//! the whole result, and for a fixed endpoint the mapping from (name,
//! record type) to URL is injective: [`lemma_built_url_injective`].

use vstd::prelude::*;

use crate::name::{is_label_char, valid_label, valid_labels, DnsName};
use crate::records::BackendRecordType;
use crate::text::chars_of;

verus! {

/// `e` with a trailing `/` appended unless it already ends in one.
pub open spec fn with_trailing_slash(e: Seq<char>) -> Seq<char> {
    if e.len() > 0 && e[e.len() - 1] == '/' {
        e
    } else {
        e.push('/')
    }
}

/// The canonical uppercase mnemonic of a backend-fetched record type.
pub open spec fn mnemonic(t: BackendRecordType) -> Seq<char> {
    match t {
        BackendRecordType::A => seq!['A'],
        BackendRecordType::Ns => seq!['N', 'S'],
        BackendRecordType::Txt => seq!['T', 'X', 'T'],
    }
}

/// The segments joined into a path, each terminated by `/`.
pub open spec fn encode_segments(segs: Seq<Seq<char>>) -> Seq<char>
    decreases segs.len(),
{
    if segs.len() == 0 {
        Seq::empty()
    } else {
        segs[0] + seq!['/'] + encode_segments(segs.drop_first())
    }
}

/// The path segments of a query: the name's labels reversed, then the
/// record type's mnemonic.
pub open spec fn url_segments(labels: Seq<Seq<char>>, t: BackendRecordType) -> Seq<Seq<char>> {
    labels.reverse() + seq![mnemonic(t)]
}

/// The request URL for querying `labels` at `t` against endpoint `e`.
pub open spec fn built_url(e: Seq<char>, labels: Seq<Seq<char>>, t: BackendRecordType) -> Seq<
    char,
> {
    with_trailing_slash(e) + encode_segments(url_segments(labels, t))
}

/// Appending one segment extends the encoding at its end.
proof fn lemma_encode_push(segs: Seq<Seq<char>>, s: Seq<char>)
    ensures
        encode_segments(segs.push(s)) =~= encode_segments(segs) + s + seq!['/'],
    decreases segs.len(),
{
    let p = segs.push(s);
    if segs.len() == 0 {
        assert(p[0] == s);
        assert(p.drop_first() =~= Seq::<Seq<char>>::empty());
        assert(encode_segments(p) == s + seq!['/'] + encode_segments(Seq::<Seq<char>>::empty()));
        assert(encode_segments(p) =~= encode_segments(segs) + s + seq!['/']);
    } else {
        assert(p[0] == segs[0]);
        assert(p.drop_first() =~= segs.drop_first().push(s));
        lemma_encode_push(segs.drop_first(), s);
        assert(encode_segments(p) == segs[0] + seq!['/'] + encode_segments(
            segs.drop_first().push(s),
        ));
        assert(encode_segments(segs.drop_first().push(s)) == encode_segments(segs.drop_first()) + s
            + seq!['/']);
        assert(encode_segments(segs) == segs[0] + seq!['/'] + encode_segments(segs.drop_first()));
        assert(encode_segments(p) =~= encode_segments(segs) + s + seq!['/']);
    }
}

/// Executable counterpart of [`mnemonic`].
pub fn mnemonic_str(t: BackendRecordType) -> (r: &'static str)
    ensures
        r@ == mnemonic(t),
{
    match t {
        BackendRecordType::A => {
            proof {
                reveal_strlit("A");
                assert("A"@ =~= seq!['A']);
            }
            "A"
        },
        BackendRecordType::Ns => {
            proof {
                reveal_strlit("NS");
                assert("NS"@ =~= seq!['N', 'S']);
            }
            "NS"
        },
        BackendRecordType::Txt => {
            proof {
                reveal_strlit("TXT");
                assert("TXT"@ =~= seq!['T', 'X', 'T']);
            }
            "TXT"
        },
    }
}

/// Build the request URL, exactly as [`built_url`] states it.
#[verifier::rlimit(60)]
pub fn build_request_url(endpoint: &str, name: &DnsName, t: BackendRecordType) -> (r: String)
    ensures
        r@ == built_url(endpoint@, name@, t),
{
    let e = chars_of(endpoint);
    let mut url: String = endpoint.to_owned();
    if e.len() == 0 || e[e.len() - 1] != '/' {
        url.append("/");
        proof {
            reveal_strlit("/");
            assert("/"@ =~= seq!['/']);
            assert(url@ =~= with_trailing_slash(endpoint@));
        }
    }
    proof {
        assert(url@ == with_trailing_slash(endpoint@));
        assert(name@.subrange(name.labels@.len() as int, name.labels@.len() as int).reverse()
            =~= Seq::<Seq<char>>::empty());
        assert(url@ =~= with_trailing_slash(endpoint@) + encode_segments(
            name@.subrange(name.labels@.len() as int, name.labels@.len() as int).reverse(),
        ));
    }
    let mut k = name.labels.len();
    while k > 0
        invariant
            k <= name.labels@.len(),
            url@ == with_trailing_slash(endpoint@) + encode_segments(
                name@.subrange(k as int, name.labels@.len() as int).reverse(),
            ),
        decreases k,
    {
        k = k - 1;
        let ghost pre = name@.subrange(k as int + 1, name.labels@.len() as int).reverse();
        url.append(name.labels[k].as_str());
        url.append("/");
        proof {
            reveal_strlit("/");
            assert("/"@ =~= seq!['/']);
            assert(name.labels@[k as int]@ == name@[k as int]);
            assert(name@.subrange(k as int, name.labels@.len() as int).reverse() =~= pre.push(
                name@[k as int],
            ));
            lemma_encode_push(pre, name@[k as int]);
            assert(url@ =~= with_trailing_slash(endpoint@) + encode_segments(
                name@.subrange(k as int, name.labels@.len() as int).reverse(),
            ));
        }
    }
    url.append(mnemonic_str(t));
    url.append("/");
    proof {
        reveal_strlit("/");
        assert("/"@ =~= seq!['/']);
        assert(name@.subrange(0, name.labels@.len() as int) =~= name@);
        lemma_encode_push(name@.reverse(), mnemonic(t));
        assert(name@.reverse().push(mnemonic(t)) =~= url_segments(name@, t));
        assert(url@ =~= built_url(endpoint@, name@, t));
    }
    url
}

/// Normalizing the endpoint is idempotent: whether or not the configured
/// endpoint already ends with the separator, the same URL is built.
pub proof fn lemma_built_url_normalizes(e: Seq<char>, labels: Seq<Seq<char>>, t: BackendRecordType)
    ensures
        built_url(with_trailing_slash(e), labels, t) == built_url(e, labels, t),
{
    let w = with_trailing_slash(e);
    if !(e.len() > 0 && e[e.len() - 1] == '/') {
        assert(w[w.len() - 1] == '/');
        assert(with_trailing_slash(w) == w);
    }
}

/// A path segment as the URL grammar needs it: non-empty and free of `/`.
pub open spec fn slash_free(s: Seq<char>) -> bool {
    s.len() >= 1 && forall|i: int| 0 <= i < s.len() ==> s[i] != '/'
}

/// Every segment non-empty and free of `/`.
pub open spec fn slash_free_all(segs: Seq<Seq<char>>) -> bool {
    forall|i: int| 0 <= i < segs.len() ==> slash_free(#[trigger] segs[i])
}

/// A valid label never contains `/`.
proof fn lemma_label_slash_free(l: Seq<char>)
    requires
        valid_label(l),
    ensures
        slash_free(l),
{
    assert forall|i: int| 0 <= i < l.len() implies l[i] != '/' by {
        assert(is_label_char(l[i]));
    }
}

/// Mnemonics are valid segments.
proof fn lemma_mnemonic_slash_free(t: BackendRecordType)
    ensures
        slash_free(mnemonic(t)),
{
}

/// The query's segments are all valid when the name is.
proof fn lemma_url_segments_slash_free(labels: Seq<Seq<char>>, t: BackendRecordType)
    requires
        valid_labels(labels),
    ensures
        slash_free_all(url_segments(labels, t)),
{
    let segs = url_segments(labels, t);
    assert forall|i: int| 0 <= i < segs.len() implies slash_free(#[trigger] segs[i]) by {
        if i < labels.len() {
            assert(segs[i] == labels[labels.len() - 1 - i]);
            lemma_label_slash_free(labels[labels.len() - 1 - i]);
        } else {
            assert(segs[i] == mnemonic(t));
            lemma_mnemonic_slash_free(t);
        }
    }
}

/// Valid segments are recoverable from their encoding: the encoding is
/// injective.
proof fn lemma_encode_injective(x: Seq<Seq<char>>, y: Seq<Seq<char>>)
    requires
        slash_free_all(x),
        slash_free_all(y),
        encode_segments(x) == encode_segments(y),
    ensures
        x =~= y,
    decreases x.len(),
{
    if x.len() == 0 || y.len() == 0 {
        if x.len() != 0 {
            assert(slash_free(x[0]));
            assert(encode_segments(x).len() >= x[0].len() + 1);
        }
        if y.len() != 0 {
            assert(slash_free(y[0]));
            assert(encode_segments(y).len() >= y[0].len() + 1);
        }
    } else {
        let ex = encode_segments(x);
        let a = x[0];
        let b = y[0];
        assert(slash_free(a) && slash_free(b));
        // The head segment is the text up to the first '/', so the heads
        // have equal length.
        assert(ex == a + seq!['/'] + encode_segments(x.drop_first()));
        assert(ex == b + seq!['/'] + encode_segments(y.drop_first()));
        assert(ex[a.len() as int] == '/');
        assert(ex[b.len() as int] == '/');
        assert forall|i: int| 0 <= i < a.len() implies ex[i] == a[i] && ex[i] != '/' by {
            assert((a + seq!['/'] + encode_segments(x.drop_first()))[i] == a[i]);
        }
        assert forall|i: int| 0 <= i < b.len() implies ex[i] == b[i] && ex[i] != '/' by {
            assert((b + seq!['/'] + encode_segments(y.drop_first()))[i] == b[i]);
        }
        assert(a.len() == b.len());
        assert(a =~= b);
        // Strip the head: the tails encode equal text.
        let n = a.len() as int;
        assert(encode_segments(x.drop_first()) =~= ex.subrange(n + 1, ex.len() as int));
        assert(encode_segments(y.drop_first()) =~= ex.subrange(n + 1, ex.len() as int));
        assert(slash_free_all(x.drop_first())) by {
            assert(forall|i: int|
                0 <= i < x.drop_first().len() ==> #[trigger] x.drop_first()[i] == x[i + 1]);
        }
        assert(slash_free_all(y.drop_first())) by {
            assert(forall|i: int|
                0 <= i < y.drop_first().len() ==> #[trigger] y.drop_first()[i] == y[i + 1]);
        }
        lemma_encode_injective(x.drop_first(), y.drop_first());
        assert(x =~= seq![x[0]] + x.drop_first());
        assert(y =~= seq![y[0]] + y.drop_first());
    }
}

/// For a fixed endpoint, distinct (name, record type) queries build
/// distinct URLs: the URL determines the name and the type.
pub proof fn lemma_built_url_injective(
    e: Seq<char>,
    l1: Seq<Seq<char>>,
    t1: BackendRecordType,
    l2: Seq<Seq<char>>,
    t2: BackendRecordType,
)
    requires
        valid_labels(l1),
        valid_labels(l2),
        built_url(e, l1, t1) == built_url(e, l2, t2),
    ensures
        l1 =~= l2,
        t1 == t2,
{
    let p = with_trailing_slash(e);
    let s1 = url_segments(l1, t1);
    let s2 = url_segments(l2, t2);
    assert(encode_segments(s1) =~= (p + encode_segments(s1)).subrange(
        p.len() as int,
        (p + encode_segments(s1)).len() as int,
    ));
    assert(encode_segments(s2) =~= (p + encode_segments(s2)).subrange(
        p.len() as int,
        (p + encode_segments(s2)).len() as int,
    ));
    lemma_url_segments_slash_free(l1, t1);
    lemma_url_segments_slash_free(l2, t2);
    lemma_encode_injective(s1, s2);
    // Same segment count, so the names have the same number of labels and
    // the final segments are the mnemonics.
    assert(l1.len() == l2.len());
    assert(s1[s1.len() - 1] == mnemonic(t1));
    assert(s2[s2.len() - 1] == mnemonic(t2));
    assert(mnemonic(t1) == mnemonic(t2));
    // Mnemonics have pairwise distinct lengths, so the types are equal.
    assert(t1 == t2);
    assert forall|i: int| 0 <= i < l1.len() implies l1[i] == l2[i] by {
        assert(s1[l1.len() - 1 - i] == l1.reverse()[l1.len() - 1 - i]);
        assert(s2[l2.len() - 1 - i] == l2.reverse()[l2.len() - 1 - i]);
        assert(l1.reverse()[l1.len() - 1 - i] == l1[i]);
        assert(l2.reverse()[l2.len() - 1 - i] == l2[i]);
    }
}

} // verus!
