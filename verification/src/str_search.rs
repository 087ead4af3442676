//! First-occurrence searches over strings, whitespace trimming, line
//! splitting, and decimal rendering: the plain string operations the
//! canonicalizer and the store are specified and proved against.

use vstd::prelude::*;

verus! {

use vstd::string::StrSliceExecFns;

/// Index of the first occurrence of `c` in `s` at or after `i`, if any.
pub open spec fn find_char_from(s: Seq<char>, c: char, i: nat) -> Option<nat>
    decreases s.len() - i,
    when i <= s.len()
{
    if i >= s.len() {
        None
    } else if s[i as int] == c {
        Some(i)
    } else {
        find_char_from(s, c, i + 1)
    }
}

/// The three characters of a scheme separator stand at index `i` of `s`.
pub open spec fn scheme_sep_at(s: Seq<char>, i: int) -> bool {
    &&& 0 <= i
    &&& i + 3 <= s.len()
    &&& s[i] == ':'
    &&& s[i + 1] == '/'
    &&& s[i + 2] == '/'
}

/// Index of the first scheme separator (`"://"`) in `s` at or after `i`, if any.
pub open spec fn find_scheme_sep_from(s: Seq<char>, i: nat) -> Option<nat>
    decreases s.len() - i,
    when i <= s.len()
{
    if i + 3 > s.len() {
        None
    } else if scheme_sep_at(s, i as int) {
        Some(i)
    } else {
        find_scheme_sep_from(s, i + 1)
    }
}

/// First occurrence of `c` in `s`, by a linear scan.
pub fn find_char(s: &str, c: char) -> (r: Option<usize>)
    ensures
        r is Some <==> find_char_from(s@, c, 0) is Some,
        r is Some ==> Some(r->Some_0 as nat) == find_char_from(s@, c, 0),
{
    let n = s.unicode_len();
    let mut i: usize = 0;
    while i < n
        invariant
            i <= n,
            n == s@.len(),
            find_char_from(s@, c, 0) == find_char_from(s@, c, i as nat),
        decreases n - i,
    {
        if s.get_char(i) == c {
            return Some(i);
        }
        i = i + 1;
    }
    None
}

/// First occurrence of `"://"` in `s`, by a linear scan.
pub fn find_scheme_sep(s: &str) -> (r: Option<usize>)
    ensures
        r is Some <==> find_scheme_sep_from(s@, 0) is Some,
        r is Some ==> Some(r->Some_0 as nat) == find_scheme_sep_from(s@, 0),
{
    let n = s.unicode_len();
    if n < 3 {
        return None;
    }
    let mut i: usize = 0;
    while i <= n - 3
        invariant
            i <= n,
            n == s@.len(),
            n >= 3,
            find_scheme_sep_from(s@, 0) == find_scheme_sep_from(s@, i as nat),
        decreases n - i,
    {
        if s.get_char(i) == ':' && s.get_char(i + 1) == '/' && s.get_char(i + 2) == '/' {
            return Some(i);
        }
        i = i + 1;
    }
    None
}

/// The whitespace that seed lines are trimmed of.
pub open spec fn is_space(c: char) -> bool {
    c == ' ' || c == '\t' || c == '\r' || c == '\n'
}

/// `s` without its leading whitespace.
pub open spec fn trim_start_spec(s: Seq<char>) -> Seq<char>
    decreases s.len(),
{
    if s.len() > 0 && is_space(s[0]) {
        trim_start_spec(s.skip(1))
    } else {
        s
    }
}

/// `s` without its trailing whitespace.
pub open spec fn trim_end_spec(s: Seq<char>) -> Seq<char>
    decreases s.len(),
{
    if s.len() > 0 && is_space(s.last()) {
        trim_end_spec(s.drop_last())
    } else {
        s
    }
}

/// `s` without leading or trailing whitespace.
pub open spec fn trim_spec(s: Seq<char>) -> Seq<char> {
    trim_end_spec(trim_start_spec(s))
}

/// Trims whitespace from both ends of `s`.
pub fn trim(s: &str) -> (r: String)
    ensures
        r@ == trim_spec(s@),
{
    let n = s.unicode_len();
    proof {
        assert(s@.skip(0) =~= s@);
    }
    let mut a: usize = 0;
    while a < n && is_space_exec(s.get_char(a))
        invariant
            a <= n,
            n == s@.len(),
            trim_start_spec(s@) == trim_start_spec(s@.skip(a as int)),
        decreases n - a,
    {
        proof {
            assert(s@.skip(a as int).skip(1) =~= s@.skip(a as int + 1));
        }
        a = a + 1;
    }
    proof {
        assert(trim_start_spec(s@.skip(a as int)) == s@.skip(a as int));
        assert(s@.skip(a as int) =~= s@.subrange(a as int, n as int));
    }
    let mut b: usize = n;
    while b > a && is_space_exec(s.get_char(b - 1))
        invariant
            a <= b <= n,
            n == s@.len(),
            trim_end_spec(s@.subrange(a as int, n as int)) == trim_end_spec(
                s@.subrange(a as int, b as int),
            ),
        decreases b,
    {
        proof {
            assert(s@.subrange(a as int, b as int).drop_last() =~= s@.subrange(
                a as int,
                b as int - 1,
            ));
        }
        b = b - 1;
    }
    proof {
        assert(trim_end_spec(s@.subrange(a as int, b as int)) == s@.subrange(a as int, b as int));
    }
    let out = s.substring_char(a, b);
    String::from_str(out)
}

/// Whether `c` is whitespace in the sense of [`is_space`].
pub fn is_space_exec(c: char) -> (r: bool)
    ensures
        r == is_space(c),
{
    c == ' ' || c == '\t' || c == '\r' || c == '\n'
}

/// The non-empty trimmed lines of `s`, in order: `s` is split on `'\n'`,
/// each piece is trimmed, and blank pieces are dropped.
pub open spec fn seed_lines_spec(s: Seq<char>) -> Seq<Seq<char>>
    decreases s.len(),
    via seed_lines_spec_decreases
{
    match find_char_from(s, '\n', 0) {
        Some(i) => {
            let line = trim_spec(s.subrange(0, i as int));
            let rest = seed_lines_spec(s.skip(i as int + 1));
            if line.len() > 0 {
                seq![line] + rest
            } else {
                rest
            }
        },
        None => {
            let line = trim_spec(s);
            if line.len() > 0 {
                seq![line]
            } else {
                Seq::empty()
            }
        },
    }
}

#[via_fn]
proof fn seed_lines_spec_decreases(s: Seq<char>) {
    if find_char_from(s, '\n', 0) is Some {
        lemma_find_char_in_bounds(s, '\n', 0);
    }
}

/// Splits `s` on newlines, trims each line, and drops the blank ones.
pub fn seed_lines(s: &str) -> (r: Vec<String>)
    ensures
        r.deep_view() == seed_lines_spec(s@),
{
    let mut out: Vec<String> = Vec::new();
    let mut rest = String::from_str(s);
    loop
        invariant
            out.deep_view() + seed_lines_spec(rest@) == seed_lines_spec(s@),
        decreases rest@.len(),
    {
        match find_char(rest.as_str(), '\n') {
            Some(i) => {
                let n = rest.as_str().unicode_len();
                proof {
                    lemma_find_char_in_bounds(rest@, '\n', 0);
                }
                let line = trim(rest.as_str().substring_char(0, i));
                let tail = String::from_str(rest.as_str().substring_char(i + 1, n));
                proof {
                    assert(tail@ =~= rest@.skip(i as int + 1));
                }
                let ghost prev = out.deep_view();
                if line.as_str().unicode_len() > 0 {
                    out.push(line);
                    proof {
                        assert(out.deep_view() =~= prev + seq![trim_spec(
                            rest@.subrange(0, i as int),
                        )]);
                    }
                }
                rest = tail;
            },
            None => {
                let line = trim(rest.as_str());
                let ghost prev = out.deep_view();
                if line.as_str().unicode_len() > 0 {
                    out.push(line);
                    proof {
                        assert(out.deep_view() =~= prev + seq![trim_spec(rest@)]);
                    }
                }
                proof {
                    assert(out.deep_view() =~= out.deep_view() + seed_lines_spec(Seq::empty()));
                }
                return out;
            },
        }
    }
}

/// A found index lies within the string, before its end.
pub proof fn lemma_find_char_in_bounds(s: Seq<char>, c: char, i: nat)
    requires
        i <= s.len(),
        find_char_from(s, c, i) is Some,
    ensures
        i <= find_char_from(s, c, i)->Some_0 < s.len(),
        s[find_char_from(s, c, i)->Some_0 as int] == c,
    decreases s.len() - i,
{
    if i >= s.len() {
    } else if s[i as int] == c {
    } else {
        lemma_find_char_in_bounds(s, c, i + 1);
    }
}

/// The digit characters, least significant last.
pub open spec fn decimal_digit(d: nat) -> char {
    seq!['0', '1', '2', '3', '4', '5', '6', '7', '8', '9'][d as int]
}

/// The decimal rendering of `n`, without sign or leading zeros.
pub open spec fn decimal_spec(n: nat) -> Seq<char>
    decreases n,
{
    if n < 10 {
        seq![decimal_digit(n)]
    } else {
        decimal_spec(n / 10) + seq![decimal_digit(n % 10)]
    }
}

/// Renders `n` in decimal.
pub fn decimal_string(n: usize) -> (r: String)
    ensures
        r@ == decimal_spec(n as nat),
    decreases n,
{
    let digits = "0123456789";
    proof {
        reveal_strlit("0123456789");
        assert(digits@ =~= seq!['0', '1', '2', '3', '4', '5', '6', '7', '8', '9']);
    }
    let d = n % 10;
    let tail = digits.substring_char(d, d + 1);
    proof {
        assert(tail@ =~= seq![decimal_digit((n % 10) as nat)]);
    }
    if n < 10 {
        String::from_str(tail)
    } else {
        let mut s = decimal_string(n / 10);
        s.append(tail);
        s
    }
}

} // verus!
