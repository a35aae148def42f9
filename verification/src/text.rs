//! Verified text utilities: decimal literals, case folding, trimming and
//! statement-batch splitting.

use vstd::prelude::*;

verus! {

/// A decimal digit.
pub open spec fn is_digit(c: char) -> bool {
    '0' <= c && c <= '9'
}

/// The numeric value of one digit.
pub open spec fn digit_val(c: char) -> int {
    c as int - '0' as int
}

/// Text made of decimal digits only.
pub open spec fn all_digits(s: Seq<char>) -> bool {
    forall|i: int| 0 <= i < s.len() ==> is_digit(#[trigger] s[i])
}

/// The value of a digit string read as a decimal number.
pub open spec fn dec_value(s: Seq<char>) -> int
    decreases s.len(),
{
    if s.len() == 0 {
        0
    } else {
        dec_value(s.drop_last()) * 10 + digit_val(s.last())
    }
}

/// The value of a digit string is never negative.
pub proof fn lemma_dec_value_nonneg(s: Seq<char>)
    requires
        all_digits(s),
    ensures
        dec_value(s) >= 0,
    decreases s.len(),
{
    if s.len() > 0 {
        assert(all_digits(s.drop_last())) by {
            assert(forall|i: int| 0 <= i < s.len() - 1 ==> s.drop_last()[i] == s[i]);
        }
        lemma_dec_value_nonneg(s.drop_last());
    }
}

/// Reading one more digit multiplies the value by ten and adds the digit.
pub proof fn lemma_dec_value_extend(s: Seq<char>, i: int)
    requires
        0 <= i < s.len(),
    ensures
        dec_value(s.subrange(0, i + 1)) == dec_value(s.subrange(0, i)) * 10 + digit_val(s[i]),
{
    let t = s.subrange(0, i + 1);
    assert(t.drop_last() =~= s.subrange(0, i));
    assert(t.last() == s[i]);
}

/// Extending a digit string never shrinks its value.
pub proof fn lemma_dec_value_monotone(s: Seq<char>, i: int, j: int)
    requires
        all_digits(s),
        0 <= i <= j <= s.len(),
    ensures
        dec_value(s.subrange(0, i)) <= dec_value(s.subrange(0, j)),
    decreases j - i,
{
    if i < j {
        lemma_dec_value_monotone(s, i, j - 1);
        lemma_dec_value_extend(s, j - 1);
        assert(all_digits(s.subrange(0, j - 1))) by {
            assert(forall|k: int| 0 <= k < j - 1 ==> s.subrange(0, j - 1)[k] == s[k]);
        }
        lemma_dec_value_nonneg(s.subrange(0, j - 1));
    }
}

/// Reads a string of decimal digits as a `u64`. `None` exactly when the
/// string is empty, holds a non-digit, or names a value above `u64::MAX`.
pub fn parse_u64_digits(s: &str) -> (r: Option<u64>)
    ensures
        r is Some <==> (s@.len() > 0 && all_digits(s@) && dec_value(s@) <= u64::MAX),
        r matches Some(v) ==> v == dec_value(s@),
{
    let n = s.unicode_len();
    if n == 0 {
        return None;
    }
    let mut acc: u64 = 0;
    let mut i: usize = 0;
    while i < n
        invariant
            0 < n == s@.len(),
            i <= n,
            all_digits(s@.subrange(0, i as int)),
            acc == dec_value(s@.subrange(0, i as int)),
        decreases n - i,
    {
        let c = s.get_char(i);
        if !('0' <= c && c <= '9') {
            return None;
        }
        let d = (c as u32 - '0' as u32) as u64;
        proof {
            lemma_dec_value_extend(s@, i as int);
        }
        if acc > (u64::MAX - d) / 10 {
            proof {
                assert(dec_value(s@.subrange(0, i + 1)) > u64::MAX);
                if all_digits(s@) && dec_value(s@) <= u64::MAX {
                    lemma_dec_value_monotone(s@, i + 1, s@.len() as int);
                    assert(s@.subrange(0, s@.len() as int) =~= s@);
                }
            }
            return None;
        }
        acc = acc * 10 + d;
        i = i + 1;
        proof {
            assert(forall|k: int|
                0 <= k < i ==> s@.subrange(0, i as int)[k] == s@.subrange(0, i - 1)[k]
                    || k == i - 1);
        }
    }
    proof {
        assert(s@.subrange(0, n as int) =~= s@);
    }
    Some(acc)
}

/// Reads a string of decimal digits as a `u32`. `None` exactly when the
/// string is empty, holds a non-digit, or names a value above `u32::MAX`.
pub fn parse_u32_digits(s: &str) -> (r: Option<u32>)
    ensures
        r is Some <==> (s@.len() > 0 && all_digits(s@) && dec_value(s@) <= u32::MAX),
        r matches Some(v) ==> v == dec_value(s@),
{
    match parse_u64_digits(s) {
        Some(v) => {
            if v <= u32::MAX as u64 {
                Some(v as u32)
            } else {
                None
            }
        },
        None => None,
    }
}

/// Reads a string of decimal digits as a non-negative `i64`. `None`
/// exactly when the string is empty, holds a non-digit, or names a value
/// above `i64::MAX`.
pub fn parse_i64_digits(s: &str) -> (r: Option<i64>)
    ensures
        r is Some <==> (s@.len() > 0 && all_digits(s@) && dec_value(s@) <= i64::MAX),
        r matches Some(v) ==> v == dec_value(s@),
{
    match parse_u64_digits(s) {
        Some(v) => {
            if v <= i64::MAX as u64 {
                Some(v as i64)
            } else {
                None
            }
        },
        None => None,
    }
}

/// An upper-case ASCII letter folded to lower case; everything else kept.
pub open spec fn lower_char(c: char) -> char {
    if 'A' <= c && c <= 'Z' {
        ((c as u8) + 32) as char
    } else {
        c
    }
}

/// Character sequences equal up to ASCII case.
pub open spec fn seq_eq_ignore_case(a: Seq<char>, b: Seq<char>) -> bool {
    a.len() == b.len() && forall|i: int|
        0 <= i < a.len() ==> lower_char(#[trigger] a[i]) == lower_char(b[i])
}

/// Compares two strings up to ASCII case.
pub fn str_eq_ignore_ascii_case(a: &str, b: &str) -> (r: bool)
    ensures
        r == seq_eq_ignore_case(a@, b@),
{
    let na = a.unicode_len();
    let nb = b.unicode_len();
    if na != nb {
        return false;
    }
    let mut i: usize = 0;
    while i < na
        invariant
            na == a@.len() == b@.len(),
            i <= na,
            forall|k: int| 0 <= k < i ==> lower_char(#[trigger] a@[k]) == lower_char(b@[k]),
        decreases na - i,
    {
        let ca = a.get_char(i);
        let cb = b.get_char(i);
        let la = if 'A' <= ca && ca <= 'Z' {
            (ca as u8 + 32) as char
        } else {
            ca
        };
        let lb = if 'A' <= cb && cb <= 'Z' {
            (cb as u8 + 32) as char
        } else {
            cb
        };
        if la != lb {
            return false;
        }
        i = i + 1;
    }
    true
}

/// Compares two strings by their characters.
pub fn string_eq(a: &String, b: &String) -> (r: bool)
    ensures
        r == (a@ == b@),
{
    a.eq(b)
}

/// Whether the text begins with the given character.
pub fn starts_with_char(s: &str, c: char) -> (r: bool)
    ensures
        r == (s@.len() > 0 && s@[0] == c),
{
    if s.unicode_len() == 0 {
        false
    } else {
        s.get_char(0) == c
    }
}


/// A Unicode whitespace character: the `White_Space` set, exactly what
/// `str::trim` drops from the ends of a string.
pub open spec fn is_ws(c: char) -> bool {
    let u = c as int;
    (0x09 <= u && u <= 0x0D) || u == 0x20 || u == 0x85 || u == 0xA0 || u == 0x1680 || (0x2000 <= u
        && u <= 0x200A) || u == 0x2028 || u == 0x2029 || u == 0x202F || u == 0x205F || u == 0x3000
}

/// Run-time twin of [`is_ws`].
pub fn is_ws_char(c: char) -> (r: bool)
    ensures
        r == is_ws(c),
{
    let u = c as u32;
    (0x09 <= u && u <= 0x0D) || u == 0x20 || u == 0x85 || u == 0xA0 || u == 0x1680 || (0x2000 <= u
        && u <= 0x200A) || u == 0x2028 || u == 0x2029 || u == 0x202F || u == 0x205F || u == 0x3000
}

/// The text split at every `;`: always at least one piece, with the
/// separators dropped.
pub open spec fn split_semis(s: Seq<char>) -> Seq<Seq<char>>
    decreases s.len(),
{
    if s.len() == 0 {
        seq![Seq::<char>::empty()]
    } else if s.last() == ';' {
        split_semis(s.drop_last()).push(Seq::<char>::empty())
    } else {
        let rest = split_semis(s.drop_last());
        rest.update(rest.len() - 1, rest.last().push(s.last()))
    }
}

/// A split has at least one piece.
pub proof fn lemma_split_semis_len(s: Seq<char>)
    ensures
        split_semis(s).len() >= 1,
    decreases s.len(),
{
    if s.len() > 0 {
        lemma_split_semis_len(s.drop_last());
    }
}

/// The first position at or after `i` holding a non-whitespace character.
pub open spec fn first_non_ws(s: Seq<char>, i: int) -> int
    decreases s.len() - i,
{
    if i < 0 || i >= s.len() {
        s.len() as int
    } else if is_ws(s[i]) {
        first_non_ws(s, i + 1)
    } else {
        i
    }
}

/// One past the last position below `i` holding a non-whitespace
/// character.
pub open spec fn last_non_ws_end(s: Seq<char>, i: int) -> int
    decreases i,
{
    if i <= 0 || i > s.len() {
        0
    } else if is_ws(s[i - 1]) {
        last_non_ws_end(s, i - 1)
    } else {
        i
    }
}

/// The text with leading and trailing whitespace dropped.
pub open spec fn spec_trim(s: Seq<char>) -> Seq<char> {
    let a = first_non_ws(s, 0);
    let b = last_non_ws_end(s, s.len() as int);
    if a < b {
        s.subrange(a, b)
    } else {
        Seq::empty()
    }
}

/// The pieces a batch of statements is run as: the text split at `;`,
/// each piece trimmed, the empty pieces dropped.
pub open spec fn batch_pieces(s: Seq<char>) -> Seq<Seq<char>> {
    split_semis(s).map_values(|p: Seq<char>| spec_trim(p)).filter(|p: Seq<char>| p.len() > 0)
}

/// Drops leading and trailing whitespace.
pub fn trim_str(s: &str) -> (r: String)
    ensures
        r@ =~= spec_trim(s@),
{
    let n = s.unicode_len();
    let mut a: usize = 0;
    while a < n && is_ws_char(s.get_char(a))
        invariant
            a <= n == s@.len(),
            first_non_ws(s@, 0) == first_non_ws(s@, a as int),
        decreases n - a,
    {
        proof {
            assert(first_non_ws(s@, a as int) == first_non_ws(s@, a as int + 1));
        }
        a = a + 1;
    }
    proof {
        assert(first_non_ws(s@, a as int) == a as int);
    }
    let mut b: usize = n;
    while b > a && is_ws_char(s.get_char(b - 1))
        invariant
            a <= b <= n == s@.len(),
            first_non_ws(s@, 0) == a as int,
            last_non_ws_end(s@, n as int) == last_non_ws_end(s@, b as int),
        decreases b,
    {
        proof {
            assert(last_non_ws_end(s@, b as int) == last_non_ws_end(s@, b as int - 1));
        }
        b = b - 1;
    }
    if a < b {
        proof {
            assert(!is_ws(s@[b - 1]));
            assert(last_non_ws_end(s@, b as int) == b as int);
        }
        String::from_str(s.substring_char(a, b))
    } else {
        proof {
            lemma_last_non_ws_le(s@, b as int);
        }
        String::new()
    }
}

/// The last-non-whitespace scan never answers past its bound.
pub proof fn lemma_last_non_ws_le(s: Seq<char>, i: int)
    requires
        i >= 0,
    ensures
        last_non_ws_end(s, i) <= i,
    decreases i,
{
    if 0 < i <= s.len() && is_ws(s[i - 1]) {
        lemma_last_non_ws_le(s, i - 1);
    }
}


/// Splits a batch text at `;`, trims each piece and drops the empty
/// pieces, exactly as [`batch_pieces`] describes it.
pub fn split_statements(s: &str) -> (r: Vec<String>)
    ensures
        r@.map_values(|t: String| t@) =~= batch_pieces(s@),
{
    let n = s.unicode_len();
    let mut pieces: Vec<String> = Vec::new();
    let mut start: usize = 0;
    let mut i: usize = 0;
    proof {
        assert(s@.subrange(0, 0) =~= Seq::<char>::empty());
        assert(split_semis(Seq::<char>::empty()) =~= seq![Seq::<char>::empty()]);
        assert(pieces@.map_values(|t: String| t@) =~= split_semis(s@.subrange(0, 0)).drop_last());
        assert(s@.subrange(0, 0) =~= split_semis(s@.subrange(0, 0)).last());
    }
    while i < n
        invariant
            start <= i <= n == s@.len(),
            split_semis(s@.subrange(0, i as int)).len() >= 1,
            pieces@.map_values(|t: String| t@) =~= split_semis(s@.subrange(0, i as int)).drop_last(),
            s@.subrange(start as int, i as int) =~= split_semis(s@.subrange(0, i as int)).last(),
        decreases n - i,
    {
        let ghost pre = s@.subrange(0, i as int);
        let ghost post = s@.subrange(0, i as int + 1);
        proof {
            lemma_split_semis_len(pre);
            assert(post.drop_last() =~= pre);
            assert(post.last() == s@[i as int]);
        }
        let c = s.get_char(i);
        if c == ';' {
            let piece = s.substring_char(start, i);
            pieces.push(String::from_str(piece));
            proof {
                assert(split_semis(post) =~= split_semis(pre).push(Seq::<char>::empty()));
                assert(split_semis(post).drop_last() =~= split_semis(pre));
                assert(pieces@.map_values(|t: String| t@) =~= split_semis(pre).drop_last().push(
                    piece@,
                ));
                assert(split_semis(pre).drop_last().push(split_semis(pre).last()) =~= split_semis(
                    pre,
                ));
                assert(s@.subrange(i as int + 1, i as int + 1) =~= Seq::<char>::empty());
            }
            start = i + 1;
        } else {
            proof {
                let rest = split_semis(pre);
                assert(split_semis(post) =~= rest.update(
                    rest.len() - 1,
                    rest.last().push(s@[i as int]),
                ));
                assert(split_semis(post).drop_last() =~= rest.drop_last());
                assert(split_semis(post).last() == rest.last().push(s@[i as int]));
                assert(s@.subrange(start as int, i as int + 1) =~= s@.subrange(
                    start as int,
                    i as int,
                ).push(s@[i as int]));
            }
        }
        i = i + 1;
    }
    let lastp = s.substring_char(start, n);
    pieces.push(String::from_str(lastp));
    proof {
        assert(s@.subrange(0, n as int) =~= s@);
        lemma_split_semis_len(s@);
        assert(pieces@.map_values(|t: String| t@) =~= split_semis(s@).drop_last().push(
            split_semis(s@).last(),
        ));
        assert(split_semis(s@).drop_last().push(split_semis(s@).last()) =~= split_semis(s@));
    }
    let m = pieces.len();
    let mut out: Vec<String> = Vec::new();
    let mut j: usize = 0;
    proof {
        reveal(Seq::filter);
        assert(split_semis(s@).subrange(0, 0) =~= Seq::<Seq<char>>::empty());
        assert(out@.map_values(|t: String| t@) =~= Seq::<Seq<char>>::empty().map_values(
            |p: Seq<char>| spec_trim(p),
        ).filter(|p: Seq<char>| p.len() > 0));
    }
    while j < m
        invariant
            j <= m == pieces@.len(),
            pieces@.map_values(|t: String| t@) =~= split_semis(s@),
            out@.map_values(|t: String| t@) =~= split_semis(s@).subrange(0, j as int).map_values(
                |p: Seq<char>| spec_trim(p),
            ).filter(|p: Seq<char>| p.len() > 0),
        decreases m - j,
    {
        let ghost prefix = split_semis(s@).subrange(0, j as int);
        let ghost prefix2 = split_semis(s@).subrange(0, j as int + 1);
        let t = trim_str(pieces[j].as_str());
        proof {
            reveal(Seq::filter);
            assert(pieces@[j as int]@ == split_semis(s@)[j as int]);
            assert(t@ =~= spec_trim(split_semis(s@)[j as int]));
            assert(prefix2.drop_last() =~= prefix);
            assert(prefix2.last() == split_semis(s@)[j as int]);
            let tf = |p: Seq<char>| spec_trim(p);
            let pf = |p: Seq<char>| p.len() > 0;
            assert(prefix2.map_values(tf) =~= prefix.map_values(tf).push(t@));
            assert(prefix.map_values(tf).push(t@).drop_last() =~= prefix.map_values(tf));
            assert(prefix.map_values(tf).push(t@).last() == t@);
            assert(prefix2.map_values(tf).filter(pf) =~= (if t@.len() > 0 {
                prefix.map_values(tf).filter(pf).push(t@)
            } else {
                prefix.map_values(tf).filter(pf)
            }));
        }
        if t.unicode_len() > 0 {
            out.push(t);
        }
        j = j + 1;
    }
    proof {
        assert(split_semis(s@).subrange(0, m as int) =~= split_semis(s@));
    }
    out
}


} // verus!
