//! Text utilities for name derivation: case conversion (through `heck`),
//! joining, single-suffix singularization, and substring replacement.

use vstd::prelude::*;

verus! {

/// The upper-camel-case form of a string, as `heck` computes it.
pub uninterp spec fn upper_camel_of(s: Seq<char>) -> Seq<char>;

/// The snake-case form of a string, as `heck` computes it.
pub uninterp spec fn snake_of(s: Seq<char>) -> Seq<char>;

/// Relies on heck's `ToUpperCamelCase::to_upper_camel_case`: the result is a
/// function of the characters alone, and an empty input gives an empty result.
#[verifier::external_body]
pub(crate) fn to_upper_camel(s: &str) -> (r: String)
    ensures
        r@ == upper_camel_of(s@),
        s@.len() == 0 ==> r@.len() == 0,
{
    heck::ToUpperCamelCase::to_upper_camel_case(s)
}

/// Relies on heck's `ToSnakeCase::to_snake_case`: the result is a function of
/// the characters alone, and an empty input gives an empty result.
#[verifier::external_body]
pub(crate) fn to_snake(s: &str) -> (r: String)
    ensures
        r@ == snake_of(s@),
        s@.len() == 0 ==> r@.len() == 0,
{
    heck::ToSnakeCase::to_snake_case(s)
}

/// Relies on std's `String::push`: appends exactly the given character.
#[verifier::external_body]
pub(crate) fn string_push(s: &mut String, c: char)
    ensures
        final(s)@ == old(s)@.push(c),
{
    s.push(c)
}

/// The English spelling of an integer, as `num_to_words` computes it.
pub uninterp spec fn en_words_of(n: i64) -> Seq<char>;

/// Relies on num_to_words::integer_to_en_us: for any `i64` other than the
/// smallest (whose negation it cannot take), it returns `Ok`, and the
/// spelling depends on the number alone. The impossible error is discarded.
#[verifier::external_body]
pub(crate) fn int_to_en_words(n: i64) -> (r: String)
    requires
        n > i64::MIN,
    ensures
        r@ == en_words_of(n),
{
    num_to_words::integer_to_en_us(n).unwrap()
}

/// The parts joined with the separator between consecutive parts.
pub open spec fn join_of(parts: Seq<Seq<char>>, sep: Seq<char>) -> Seq<char>
    decreases parts.len(),
{
    if parts.len() == 0 {
        Seq::empty()
    } else if parts.len() == 1 {
        parts[0]
    } else {
        parts[0] + sep + join_of(parts.drop_first(), sep)
    }
}

/// Appending one more part to a join adds a separator exactly when parts
/// already exist.
proof fn lemma_join_push(parts: Seq<Seq<char>>, sep: Seq<char>, x: Seq<char>)
    ensures
        join_of(parts.push(x), sep) == if parts.len() == 0 {
            x
        } else {
            join_of(parts, sep) + sep + x
        },
    decreases parts.len(),
{
    if parts.len() == 0 {
        assert(parts.push(x)[0] == x);
    } else if parts.len() == 1 {
        assert(parts.push(x).drop_first() =~= seq![x]);
        assert(parts.push(x)[0] == parts[0]);
        assert(join_of(seq![x], sep) == seq![x][0]);
        assert(seq![x][0] == x);
    } else {
        assert(parts.push(x).drop_first() =~= parts.drop_first().push(x));
        lemma_join_push(parts.drop_first(), sep, x);
    }
}

/// Joins the parts with the separator between consecutive parts.
pub fn join_strings(parts: &Vec<String>, sep: &str) -> (r: String)
    ensures
        r@ == join_of(parts.deep_view(), sep@),
{
    let mut out = String::new();
    let n = parts.len();
    for i in 0..n
        invariant
            n == parts.len(),
            out@ == join_of(parts.deep_view().take(i as int), sep@),
    {
        proof {
            lemma_join_push(parts.deep_view().take(i as int), sep@, parts@[i as int]@);
            assert(parts.deep_view().take(i as int).push(parts@[i as int]@)
                =~= parts.deep_view().take(i + 1));
        }
        if i > 0 {
            out.append(sep);
        }
        out.append(parts[i].as_str());
    }
    proof {
        assert(parts.deep_view().take(n as int) =~= parts.deep_view());
    }
    out
}

/// Compares two strings character by character.
pub fn str_eq(a: &str, b: &str) -> (r: bool)
    ensures
        r == (a@ == b@),
{
    let an = a.unicode_len();
    let bn = b.unicode_len();
    if an != bn {
        return false;
    }
    for i in 0..an
        invariant
            an == a@.len(),
            an == b@.len(),
            forall|j: int| 0 <= j < i ==> a@[j] == b@[j],
    {
        if a.get_char(i) != b.get_char(i) {
            return false;
        }
    }
    proof {
        assert(a@ =~= b@);
    }
    true
}

/// True when the character occurs in the string.
pub fn contains_char(s: &str, c: char) -> (r: bool)
    ensures
        r == s@.contains(c),
{
    let n = s.unicode_len();
    for i in 0..n
        invariant
            n == s@.len(),
            forall|j: int| 0 <= j < i ==> s@[j] != c,
    {
        if s.get_char(i) == c {
            return true;
        }
    }
    false
}

/// True when the string is non-empty and its last character is the given one.
pub fn ends_with_char(s: &str, c: char) -> (r: bool)
    ensures
        r == (s@.len() > 0 && s@.last() == c),
{
    let n = s.unicode_len();
    if n == 0 {
        false
    } else {
        s.get_char(n - 1) == c
    }
}

/// The string with one trailing `'s'` removed, when one is present; the
/// heuristic singular form used to name an array's item type.
pub open spec fn singular_of(s: Seq<char>) -> Seq<char> {
    if s.len() > 0 && s.last() == 's' {
        s.drop_last()
    } else {
        s
    }
}

/// Strips one trailing `'s'` when present.
pub fn singularize(s: &str) -> (r: String)
    ensures
        r@ == singular_of(s@),
{
    let n = s.unicode_len();
    if n > 0 && s.get_char(n - 1) == 's' {
        let t = s.substring_char(0, n - 1);
        proof {
            assert(t@ =~= s@.drop_last());
        }
        t.to_owned()
    } else {
        s.to_owned()
    }
}

/// True when `pat` occurs in `s` starting at position `i`.
pub open spec fn matches_at(s: Seq<char>, i: int, pat: Seq<char>) -> bool {
    0 <= i && i + pat.len() <= s.len() && s.subrange(i, i + pat.len() as int) == pat
}

/// Compares the characters of `s` from position `i` against `pat`.
pub fn check_match_at(s: &str, i: usize, pat: &str) -> (r: bool)
    requires
        i <= s@.len(),
    ensures
        r == matches_at(s@, i as int, pat@),
{
    let sn = s.unicode_len();
    let pn = pat.unicode_len();
    if pn > sn - i {
        proof {
            assert(!matches_at(s@, i as int, pat@));
        }
        return false;
    }
    for k in 0..pn
        invariant
            sn == s@.len(),
            pn == pat@.len(),
            i + pn <= sn,
            forall|j: int| 0 <= j < k ==> s@[i + j] == pat@[j],
    {
        if s.get_char(i + k) != pat.get_char(k) {
            proof {
                assert(s@.subrange(i as int, i + pat@.len() as int)[k as int] == s@[i + k]);
            }
            return false;
        }
    }
    proof {
        assert(s@.subrange(i as int, i + pat@.len() as int) =~= pat@);
    }
    true
}

/// The string with every non-overlapping occurrence of `pat`, scanned left to
/// right, replaced by `rep`.
pub open spec fn replace_all_of(s: Seq<char>, pat: Seq<char>, rep: Seq<char>) -> Seq<char>
    decreases s.len(),
    when pat.len() > 0
{
    if s.len() < pat.len() {
        s
    } else if s.subrange(0, pat.len() as int) == pat {
        rep + replace_all_of(s.skip(pat.len() as int), pat, rep)
    } else {
        seq![s[0]] + replace_all_of(s.skip(1), pat, rep)
    }
}

/// Replaces every non-overlapping occurrence of `pat` with `rep`, scanning
/// left to right.
pub fn replace_all(s: &str, pat: &str, rep: &str) -> (r: String)
    requires
        pat@.len() > 0,
    ensures
        r@ == replace_all_of(s@, pat@, rep@),
{
    let mut out = String::new();
    let n = s.unicode_len();
    let pn = pat.unicode_len();
    let mut i: usize = 0;
    proof {
        assert(s@.skip(0) =~= s@);
    }
    while i < n
        invariant
            n == s@.len(),
            pn == pat@.len(),
            pn > 0,
            i <= n,
            replace_all_of(s@, pat@, rep@) == out@ + replace_all_of(
                s@.skip(i as int),
                pat@,
                rep@,
            ),
        decreases n - i,
    {
        if check_match_at(s, i, pat) {
            proof {
                assert(s@.skip(i as int).subrange(0, pat@.len() as int) =~= s@.subrange(
                    i as int,
                    i + pat@.len() as int,
                ));
                assert(s@.skip(i as int).skip(pat@.len() as int) =~= s@.skip(i + pat@.len()));
            }
            out.append(rep);
            i = i + pn;
        } else {
            proof {
                if s@.skip(i as int).len() >= pat@.len() {
                    assert(s@.skip(i as int).subrange(0, pat@.len() as int) =~= s@.subrange(
                        i as int,
                        i + pat@.len() as int,
                    ));
                }
                assert(s@.skip(i as int).skip(1) =~= s@.skip(i + 1));
                assert(s@.skip(i as int)[0] == s@[i as int]);
            }
            let c = s.get_char(i);
            string_push(&mut out, c);
            proof {
                assert(out@ == out@.subrange(0, out@.len() - 1) + seq![c]);
            }
            i = i + 1;
        }
    }
    proof {
        assert(s@.skip(n as int) =~= Seq::<char>::empty());
    }
    out
}

/// The ten decimal digits.
pub const DEC_DIGITS: [char; 10] = ['0', '1', '2', '3', '4', '5', '6', '7', '8', '9'];

/// The decimal spelling of a non-negative number.
pub open spec fn dec_text_of(n: int) -> Seq<char>
    decreases n,
    when n >= 0
{
    if n < 10 {
        seq![DEC_DIGITS@[n]]
    } else {
        dec_text_of(n / 10) + seq![DEC_DIGITS@[n % 10]]
    }
}

/// Writes a 16-bit number in decimal.
pub fn u16_to_text(n: u16) -> (r: String)
    ensures
        r@ == dec_text_of(n as int),
    decreases n,
{
    if n < 10 {
        let mut s = String::new();
        string_push(&mut s, DEC_DIGITS[n as usize]);
        proof {
            assert(s@ =~= seq![DEC_DIGITS@[n as int]]);
        }
        s
    } else {
        let mut s = u16_to_text(n / 10);
        string_push(&mut s, DEC_DIGITS[(n % 10) as usize]);
        proof {
            assert(s@ =~= dec_text_of((n / 10) as int) + seq![DEC_DIGITS@[(n % 10) as int]]);
        }
        s
    }
}

/// Writes an index in decimal.
pub fn usize_to_text(n: usize) -> (r: String)
    ensures
        r@ == dec_text_of(n as int),
    decreases n,
{
    if n < 10 {
        let mut s = String::new();
        string_push(&mut s, DEC_DIGITS[n]);
        proof {
            assert(s@ =~= seq![DEC_DIGITS@[n as int]]);
        }
        s
    } else {
        let mut s = usize_to_text(n / 10);
        string_push(&mut s, DEC_DIGITS[n % 10]);
        proof {
            assert(s@ =~= dec_text_of((n / 10) as int) + seq![DEC_DIGITS@[(n % 10) as int]]);
        }
        s
    }
}

} // verus!
