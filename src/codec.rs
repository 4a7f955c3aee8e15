//! Block identifiers and the two base64 alphabets in which they appear.
//!
//! A listing names blocks in the standard alphabet (`+`, `/`); a dblock
//! archive names its members in the URL-safe alphabet (`-`, `_`). The two
//! forms differ in those two characters only.
use vstd::prelude::*;
use vstd::string::*;

verus! {

pub open spec fn url_char_to_std(c: char) -> char {
    if c == '-' {
        '+'
    } else if c == '_' {
        '/'
    } else {
        c
    }
}

pub open spec fn std_char_to_url(c: char) -> char {
    if c == '+' {
        '-'
    } else if c == '/' {
        '_'
    } else {
        c
    }
}

/// The standard-alphabet form of a URL-safe identifier.
pub open spec fn url_to_std(s: Seq<char>) -> Seq<char> {
    s.map_values(|c: char| url_char_to_std(c))
}

/// The URL-safe form of a standard-alphabet identifier.
pub open spec fn std_to_url(s: Seq<char>) -> Seq<char> {
    s.map_values(|c: char| std_char_to_url(c))
}

/// A well-formed URL-safe identifier uses neither `+` nor `/`.
pub open spec fn is_url_id(s: Seq<char>) -> bool {
    forall|i: int| 0 <= i < s.len() ==> s[i] != '+' && s[i] != '/'
}

/// A well-formed standard identifier uses neither `-` nor `_`.
pub open spec fn is_std_id(s: Seq<char>) -> bool {
    forall|i: int| 0 <= i < s.len() ==> s[i] != '-' && s[i] != '_'
}

/// Converts a URL-safe block identifier (an archive member name) to the
/// standard alphabet, the form the index is keyed by.
pub fn base64_url_to_plain(s: &str) -> (r: String)
    ensures
        r@ == url_to_std(s@),
{
    let n = s.unicode_len();
    let mut r = String::new();
    let mut i: usize = 0;
    while i < n
        invariant
            n == s@.len(),
            i <= n,
            r@ == url_to_std(s@.subrange(0, i as int)),
        decreases n - i,
    {
        let c = s.get_char(i);
        let piece: &str = if c == '-' {
            proof {
                reveal_strlit("+");
            }
            "+"
        } else if c == '_' {
            proof {
                reveal_strlit("/");
            }
            "/"
        } else {
            s.substring_char(i, i + 1)
        };
        assert(piece@ =~= seq![url_char_to_std(c)]);
        r.append(piece);
        assert(s@.subrange(0, i + 1) =~= s@.subrange(0, i as int).push(c));
        assert(url_to_std(s@.subrange(0, i + 1)) =~= url_to_std(s@.subrange(0, i as int)).push(
            url_char_to_std(c),
        ));
        i = i + 1;
    }
    assert(s@.subrange(0, n as int) =~= s@);
    r
}

/// Converts a standard block identifier (as the listing writes it) to the
/// URL-safe alphabet, the name of its member in a dblock archive.
pub fn base64_plain_to_url(s: &str) -> (r: String)
    ensures
        r@ == std_to_url(s@),
{
    let n = s.unicode_len();
    let mut r = String::new();
    let mut i: usize = 0;
    while i < n
        invariant
            n == s@.len(),
            i <= n,
            r@ == std_to_url(s@.subrange(0, i as int)),
        decreases n - i,
    {
        let c = s.get_char(i);
        let piece: &str = if c == '+' {
            proof {
                reveal_strlit("-");
            }
            "-"
        } else if c == '/' {
            proof {
                reveal_strlit("_");
            }
            "_"
        } else {
            s.substring_char(i, i + 1)
        };
        assert(piece@ =~= seq![std_char_to_url(c)]);
        r.append(piece);
        assert(s@.subrange(0, i + 1) =~= s@.subrange(0, i as int).push(c));
        assert(std_to_url(s@.subrange(0, i + 1)) =~= std_to_url(s@.subrange(0, i as int)).push(
            std_char_to_url(c),
        ));
        i = i + 1;
    }
    assert(s@.subrange(0, n as int) =~= s@);
    r
}

/// Converting a well-formed URL-safe name to the standard alphabet and back
/// gives the name again.
pub proof fn lemma_url_round_trip(n: Seq<char>)
    requires
        is_url_id(n),
    ensures
        std_to_url(url_to_std(n)) == n,
{
    assert(std_to_url(url_to_std(n)) =~= n);
}

/// Converting a well-formed standard identifier to the URL-safe alphabet and
/// back gives the identifier again.
pub proof fn lemma_std_round_trip(s: Seq<char>)
    requires
        is_std_id(s),
    ensures
        url_to_std(std_to_url(s)) == s,
{
    assert(url_to_std(std_to_url(s)) =~= s);
}

/// Names from the URL-safe alphabet come out of the conversion in the
/// standard one.
pub proof fn lemma_url_to_std_well_formed(n: Seq<char>)
    requires
        is_url_id(n),
    ensures
        is_std_id(url_to_std(n)),
{
}

/// The standard-alphabet, padded base64 text of `bytes`.
pub uninterp spec fn std_base64_of(bytes: Seq<u8>) -> Seq<char>;

/// Relies on base64::encode, which encodes with the standard alphabet and
/// padding; its output depends on the bytes alone.
#[verifier::external_body]
pub(crate) fn encode_standard(bytes: &[u8]) -> (r: String)
    ensures
        r@ == std_base64_of(bytes@),
{
    base64::encode(bytes)
}

} // verus!
