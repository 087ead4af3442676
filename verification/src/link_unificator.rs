//! URL canonicalization strategies. A strategy maps a URL's string form to
//! the identity under which the store deduplicates it, and says how such an
//! identity is rendered back into a URL-like string for reporting.

use vstd::prelude::*;

verus! {

use vstd::string::StrSliceExecFns;
use crate::str_search::find_char;
use crate::str_search::find_char_from;
use crate::str_search::find_scheme_sep;
use crate::str_search::find_scheme_sep_from;
use crate::str_search::scheme_sep_at;

/// A pluggable canonicalization strategy: a pure, total function from a
/// URL's string form to the identity used for deduplication.
pub trait LinkUnificator {
    type Unified;

    /// The canonical identity a unified value denotes.
    spec fn unified_view(u: Self::Unified) -> Seq<char>;

    /// What `unify` computes, as a function of the URL's string form.
    spec fn unify_spec(link: Seq<char>) -> Seq<char>;

    /// How an identity is rendered back into a displayable URL-like string.
    spec fn display_spec(id: Seq<char>) -> Seq<char>;

    /// Canonicalizes one URL; never fails.
    fn unify(link: &String) -> (r: Self::Unified)
        ensures
            Self::unified_view(r) == Self::unify_spec(link@),
    ;

    /// Decides equality of two identities.
    fn eq_unified(a: &Self::Unified, b: &Self::Unified) -> (r: bool)
        ensures
            r == (Self::unified_view(*a) == Self::unified_view(*b)),
    ;

    /// Renders an identity for reporting.
    fn display(u: &Self::Unified) -> (r: String)
        ensures
            r@ == Self::display_spec(Self::unified_view(*u)),
    ;
}

/// The identity strategy: a URL is its own canonical identity, so two URLs
/// are the same page only when their strings are equal.
pub struct EmptyUnificator;

impl LinkUnificator for EmptyUnificator {
    type Unified = String;

    open spec fn unified_view(u: String) -> Seq<char> {
        u@
    }

    open spec fn unify_spec(link: Seq<char>) -> Seq<char> {
        link
    }

    open spec fn display_spec(id: Seq<char>) -> Seq<char> {
        id
    }

    fn unify(link: &String) -> (r: String) {
        link.clone()
    }

    fn eq_unified(a: &String, b: &String) -> (r: bool) {
        *a == *b
    }

    fn display(u: &String) -> (r: String) {
        u.clone()
    }
}

/// Everything after the first `"://"` of `s`, or all of `s` when it has none.
pub open spec fn strip_scheme(s: Seq<char>) -> Seq<char> {
    match find_scheme_sep_from(s, 0) {
        Some(i) => s.subrange(i as int + 3, s.len() as int),
        None => s,
    }
}

/// Everything before the first `'#'` of `s`, or all of `s` when it has none.
pub open spec fn strip_fragment(s: Seq<char>) -> Seq<char> {
    match find_char_from(s, '#', 0) {
        Some(i) => s.subrange(0, i as int),
        None => s,
    }
}

/// The standard canonical identity: the URL without its scheme prefix
/// (up to and including the first `"://"`) and without its fragment
/// (the first `'#'` and everything after it).
pub open spec fn std_unify_spec(s: Seq<char>) -> Seq<char> {
    strip_fragment(strip_scheme(s))
}

/// The standard strategy: scheme and fragment are insignificant, so
/// `http` and `https` variants of a page, and its fragment anchors,
/// all share one identity.
pub struct StdUnificator;

/// The canonical identity computed by [`StdUnificator`]. Rendering it back
/// into a URL prefixes `https://`; that reconstruction is deliberately lossy
/// with respect to the original scheme.
#[derive(Clone, Hash, PartialEq, Eq)]
pub struct StdUnified {
    pub unified: String,
}

impl LinkUnificator for StdUnificator {
    type Unified = StdUnified;

    open spec fn unified_view(u: StdUnified) -> Seq<char> {
        u.unified@
    }

    open spec fn unify_spec(link: Seq<char>) -> Seq<char> {
        std_unify_spec(link)
    }

    open spec fn display_spec(id: Seq<char>) -> Seq<char> {
        "https://"@ + id
    }

    fn unify(link: &String) -> (r: StdUnified) {
        let s = link.as_str();
        let n = s.unicode_len();
        let start: usize = match find_scheme_sep(s) {
            Some(i) => {
                proof {
                    lemma_find_scheme_sep_in_bounds(s@, 0);
                }
                i + 3
            },
            None => 0,
        };
        let rest = s.substring_char(start, n);
        proof {
            assert(rest@ =~= strip_scheme(link@));
        }
        let m = rest.unicode_len();
        let end: usize = match find_char(rest, '#') {
            Some(j) => {
                proof {
                    crate::str_search::lemma_find_char_in_bounds(rest@, '#', 0);
                }
                j
            },
            None => m,
        };
        let uni = rest.substring_char(0, end);
        proof {
            assert(uni@ =~= strip_fragment(rest@));
        }
        StdUnified { unified: String::from_str(uni) }
    }

    fn eq_unified(a: &StdUnified, b: &StdUnified) -> (r: bool) {
        a.unified == b.unified
    }

    fn display(u: &StdUnified) -> (r: String) {
        let mut s = String::from_str("https://");
        s.append(u.unified.as_str());
        s
    }
}

/// A found scheme separator lies within the string.
pub proof fn lemma_find_scheme_sep_in_bounds(s: Seq<char>, i: nat)
    requires
        i <= s.len(),
        find_scheme_sep_from(s, i) is Some,
    ensures
        i <= find_scheme_sep_from(s, i)->Some_0,
        find_scheme_sep_from(s, i)->Some_0 + 3 <= s.len(),
        scheme_sep_at(s, find_scheme_sep_from(s, i)->Some_0 as int),
    decreases s.len() - i,
{
    if i + 3 > s.len() {
    } else if scheme_sep_at(s, i as int) {
    } else {
        lemma_find_scheme_sep_in_bounds(s, i + 1);
    }
}

/// No occurrence of `c` at or after `i` means the search finds none.
pub proof fn lemma_find_char_none(s: Seq<char>, c: char, i: nat)
    requires
        i <= s.len(),
        forall|j: int| i <= j < s.len() ==> s[j] != c,
    ensures
        find_char_from(s, c, i) is None,
    decreases s.len() - i,
{
    if i < s.len() {
        lemma_find_char_none(s, c, i + 1);
    }
}

/// When `u` is free of `c` and `v` starts with `c`, the first occurrence of
/// `c` in `u + v` is exactly at the seam.
pub proof fn lemma_find_char_concat(u: Seq<char>, v: Seq<char>, c: char, i: nat)
    requires
        i <= u.len(),
        forall|j: int| i <= j < u.len() ==> u[j] != c,
        v.len() > 0,
        v[0] == c,
    ensures
        find_char_from(u + v, c, i) == Some(u.len()),
    decreases u.len() - i,
{
    if i == u.len() {
        assert((u + v)[i as int] == c);
    } else {
        assert((u + v)[i as int] == u[i as int]);
        lemma_find_char_concat(u, v, c, i + 1);
    }
}

/// Scheme insignificance under the standard strategy: a URL reached over
/// `http` and the same URL reached over `https` share one canonical identity.
pub proof fn lemma_scheme_insignificant(rest: Seq<char>)
    ensures
        std_unify_spec("http://"@ + rest) == std_unify_spec("https://"@ + rest),
{
    reveal_strlit("http://");
    reveal_strlit("https://");
    let a = "http://"@ + rest;
    let b = "https://"@ + rest;
    assert(find_scheme_sep_from(a, 0) == find_scheme_sep_from(a, 1));
    assert(find_scheme_sep_from(a, 1) == find_scheme_sep_from(a, 2));
    assert(find_scheme_sep_from(a, 2) == find_scheme_sep_from(a, 3));
    assert(find_scheme_sep_from(a, 3) == find_scheme_sep_from(a, 4));
    assert(find_scheme_sep_from(a, 4) == Some(4nat));
    assert(strip_scheme(a) =~= rest);
    assert(find_scheme_sep_from(b, 0) == find_scheme_sep_from(b, 1));
    assert(find_scheme_sep_from(b, 1) == find_scheme_sep_from(b, 2));
    assert(find_scheme_sep_from(b, 2) == find_scheme_sep_from(b, 3));
    assert(find_scheme_sep_from(b, 3) == find_scheme_sep_from(b, 4));
    assert(find_scheme_sep_from(b, 4) == find_scheme_sep_from(b, 5));
    assert(find_scheme_sep_from(b, 5) == Some(5nat));
    assert(strip_scheme(b) =~= rest);
}

/// The standard identity of a fragment-free `https` URL is the URL without
/// its scheme prefix.
pub proof fn lemma_std_unify_plain(hp: Seq<char>)
    requires
        !hp.contains('#'),
    ensures
        std_unify_spec("https://"@ + hp) == hp,
{
    reveal_strlit("https://");
    let b = "https://"@ + hp;
    assert(find_scheme_sep_from(b, 0) == find_scheme_sep_from(b, 1));
    assert(find_scheme_sep_from(b, 1) == find_scheme_sep_from(b, 2));
    assert(find_scheme_sep_from(b, 2) == find_scheme_sep_from(b, 3));
    assert(find_scheme_sep_from(b, 3) == find_scheme_sep_from(b, 4));
    assert(find_scheme_sep_from(b, 4) == find_scheme_sep_from(b, 5));
    assert(find_scheme_sep_from(b, 5) == Some(5nat));
    assert(strip_scheme(b) =~= hp);
    assert(forall|j: int| 0 <= j < hp.len() ==> hp[j] != '#') by {
        assert(forall|j: int| 0 <= j < hp.len() ==> hp.contains(hp[j]));
    }
    lemma_find_char_none(hp, '#', 0);
}

/// Fragment insignificance under the standard strategy: whatever fragment a
/// fragment-free `https` URL is given, the identity stays the URL without
/// its scheme prefix.
pub proof fn lemma_fragment_insignificant(hp: Seq<char>, frag: Seq<char>)
    requires
        !hp.contains('#'),
    ensures
        std_unify_spec("https://"@ + hp + "#"@ + frag) == hp,
{
    reveal_strlit("https://");
    reveal_strlit("#");
    let b = "https://"@ + hp + "#"@ + frag;
    assert(find_scheme_sep_from(b, 0) == find_scheme_sep_from(b, 1));
    assert(find_scheme_sep_from(b, 1) == find_scheme_sep_from(b, 2));
    assert(find_scheme_sep_from(b, 2) == find_scheme_sep_from(b, 3));
    assert(find_scheme_sep_from(b, 3) == find_scheme_sep_from(b, 4));
    assert(find_scheme_sep_from(b, 4) == find_scheme_sep_from(b, 5));
    assert(find_scheme_sep_from(b, 5) == Some(5nat));
    let stripped = strip_scheme(b);
    assert(stripped =~= hp + ("#"@ + frag));
    assert(forall|j: int| 0 <= j < hp.len() ==> hp[j] != '#') by {
        assert(forall|j: int| 0 <= j < hp.len() ==> hp.contains(hp[j]));
    }
    assert(("#"@ + frag)[0] == '#');
    lemma_find_char_concat(hp, "#"@ + frag, '#', 0);
    assert(strip_fragment(stripped) =~= hp);
}

} // verus!
