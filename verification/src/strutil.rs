//! Verified string helpers: splitting and joining on a separator character,
//! decimal rendering and parsing of `u32` values, and small executable
//! comparisons over `&str`.

use vstd::prelude::*;

verus! {

use crate::is_digit;
use crate::digit_val;

/// Splitting a character sequence on a separator, exactly as Rust's
/// `str::split` does: the result always has at least one element, and
/// splitting the empty string yields one empty segment.
pub open spec fn split_on(s: Seq<char>, sep: char) -> Seq<Seq<char>>
    decreases s.len(),
{
    if s.len() == 0 {
        seq![Seq::<char>::empty()]
    } else if s[0] == sep {
        seq![Seq::<char>::empty()] + split_on(s.drop_first(), sep)
    } else {
        let rest = split_on(s.drop_first(), sep);
        seq![seq![s[0]] + rest[0]] + rest.drop_first()
    }
}

/// Joining segments with a separator; the inverse of `split_on`.
pub open spec fn join_on(parts: Seq<Seq<char>>, sep: char) -> Seq<char>
    decreases parts.len(),
{
    if parts.len() == 0 {
        Seq::<char>::empty()
    } else if parts.len() == 1 {
        parts[0]
    } else {
        parts[0] + seq![sep] + join_on(parts.drop_first(), sep)
    }
}

pub proof fn lemma_split_len(s: Seq<char>, sep: char)
    ensures
        split_on(s, sep).len() >= 1,
    decreases s.len(),
{
    if s.len() == 0 {
    } else {
        lemma_split_len(s.drop_first(), sep);
    }
}

/// A sequence without the separator splits into itself alone.
pub proof fn lemma_split_no_sep(s: Seq<char>, sep: char)
    requires
        forall|i: int| 0 <= i < s.len() ==> s[i] != sep,
    ensures
        split_on(s, sep) == seq![s],
    decreases s.len(),
{
    if s.len() == 0 {
        assert(s =~= Seq::<char>::empty());
        assert(split_on(s, sep) =~~= seq![s]);
    } else {
        let d = s.drop_first();
        assert(forall|i: int| 0 <= i < d.len() ==> d[i] != sep);
        lemma_split_no_sep(d, sep);
        let rest = split_on(d, sep);
        assert(rest[0] == d);
        assert(seq![s[0]] + d =~= s);
        assert(split_on(s, sep) =~~= seq![s]);
    }
}

/// Splitting distributes over a separator placed between two sequences.
pub proof fn lemma_split_app(a: Seq<char>, b: Seq<char>, sep: char)
    ensures
        split_on(a + seq![sep] + b, sep) == split_on(a, sep) + split_on(b, sep),
    decreases a.len(),
{
    let s = a + seq![sep] + b;
    if a.len() == 0 {
        assert(s[0] == sep);
        assert(s.drop_first() =~= b);
        assert(split_on(s, sep) =~~= split_on(a, sep) + split_on(b, sep));
    } else {
        assert(s[0] == a[0]);
        assert(s.drop_first() =~= a.drop_first() + seq![sep] + b);
        lemma_split_app(a.drop_first(), b, sep);
        lemma_split_len(a.drop_first(), sep);
        let sa = split_on(a.drop_first(), sep);
        let sb = split_on(b, sep);
        if a[0] == sep {
            assert(split_on(s, sep) =~~= split_on(a, sep) + split_on(b, sep));
        } else {
            assert((sa + sb)[0] == sa[0]);
            assert((sa + sb).drop_first() =~~= sa.drop_first() + sb);
            assert(split_on(s, sep) =~~= split_on(a, sep) + split_on(b, sep));
        }
    }
}

/// Joining the result of a split recovers the original sequence.
pub proof fn lemma_join_split(s: Seq<char>, sep: char)
    ensures
        join_on(split_on(s, sep), sep) == s,
    decreases s.len(),
{
    if s.len() == 0 {
        assert(join_on(split_on(s, sep), sep) =~= s);
    } else {
        let d = s.drop_first();
        lemma_join_split(d, sep);
        lemma_split_len(d, sep);
        let r = split_on(d, sep);
        if s[0] == sep {
            let p = split_on(s, sep);
            assert(p.len() >= 2);
            assert(p[0] =~= Seq::<char>::empty());
            assert(p.drop_first() =~~= r);
            assert(join_on(p, sep) =~= s);
        } else {
            let p = split_on(s, sep);
            if r.len() == 1 {
                assert(p =~~= seq![seq![s[0]] + r[0]]);
                assert(join_on(p, sep) == seq![s[0]] + r[0]);
                assert(join_on(r, sep) == r[0]);
                assert(seq![s[0]] + d =~= s);
            } else {
                assert(p[0] == seq![s[0]] + r[0]);
                assert(p.drop_first() =~~= r.drop_first());
                assert(p.len() >= 2);
                assert(join_on(p, sep) == p[0] + seq![sep] + join_on(r.drop_first(), sep));
                assert(join_on(r, sep) == r[0] + seq![sep] + join_on(r.drop_first(), sep));
                assert(seq![s[0]] + (r[0] + seq![sep] + join_on(r.drop_first(), sep)) =~= s);
                assert(p[0] + seq![sep] + join_on(r.drop_first(), sep) =~=
                    seq![s[0]] + (r[0] + seq![sep] + join_on(r.drop_first(), sep)));
            }
        }
    }
}

/// Appending one more segment to a join adds one separator and the segment.
pub proof fn lemma_join_push(ps: Seq<Seq<char>>, q: Seq<char>, sep: char)
    ensures
        ps.len() == 0 ==> join_on(ps.push(q), sep) == q,
        ps.len() > 0 ==> join_on(ps.push(q), sep) == join_on(ps, sep) + seq![sep] + q,
    decreases ps.len(),
{
    if ps.len() == 0 {
        assert(ps.push(q)[0] == q);
    } else {
        assert(ps.push(q).drop_first() =~~= ps.drop_first().push(q));
        lemma_join_push(ps.drop_first(), q, sep);
        if ps.len() == 1 {
            assert(join_on(ps.push(q), sep) == ps[0] + seq![sep] + q);
        } else {
            assert(join_on(ps.push(q), sep) ==
                ps[0] + seq![sep] + (join_on(ps.drop_first(), sep) + seq![sep] + q));
            assert(ps[0] + seq![sep] + (join_on(ps.drop_first(), sep) + seq![sep] + q) =~=
                (ps[0] + seq![sep] + join_on(ps.drop_first(), sep)) + seq![sep] + q);
        }
    }
}

/// Every character of the sequence is an ASCII decimal digit.
pub open spec fn all_digits(s: Seq<char>) -> bool {
    forall|i: int| 0 <= i < s.len() ==> is_digit(#[trigger] s[i])
}

/// The numeric value of a digit sequence, most significant digit first.
pub open spec fn seq_val(s: Seq<char>) -> nat
    decreases s.len(),
{
    if s.len() == 0 {
        0
    } else {
        seq_val(s.drop_last()) * 10 + digit_val(s.last())
    }
}

/// A digit sequence denotes a `u32`: nonempty, digits only, and in range.
pub open spec fn parses_u32(s: Seq<char>) -> bool {
    s.len() > 0 && all_digits(s) && seq_val(s) <= u32::MAX
}

/// The digit character for a value below ten.
pub open spec fn digit_char(d: nat) -> char {
    if d == 0 { '0' }
    else if d == 1 { '1' }
    else if d == 2 { '2' }
    else if d == 3 { '3' }
    else if d == 4 { '4' }
    else if d == 5 { '5' }
    else if d == 6 { '6' }
    else if d == 7 { '7' }
    else if d == 8 { '8' }
    else { '9' }
}

/// The canonical decimal rendering of a natural number (no leading zeros).
pub open spec fn dec(n: nat) -> Seq<char>
    decreases n,
{
    if n < 10 {
        seq![digit_char(n)]
    } else {
        dec(n / 10).push(digit_char(n % 10))
    }
}

/// The decimal rendering consists of digits and evaluates back to its input.
pub proof fn lemma_dec_val(n: nat)
    ensures
        dec(n).len() >= 1,
        all_digits(dec(n)),
        seq_val(dec(n)) == n,
    decreases n,
{
    if n < 10 {
        assert(dec(n) == seq![digit_char(n)]);
        assert(dec(n).drop_last() =~= Seq::<char>::empty());
        assert(seq_val(Seq::<char>::empty()) == 0);
        assert(dec(n).last() == digit_char(n));
        assert(seq_val(dec(n)) == seq_val(dec(n).drop_last()) * 10 + digit_val(dec(n).last()));
        assert(seq_val(dec(n)) == digit_val(digit_char(n)));
    } else {
        lemma_dec_val(n / 10);
        let s = dec(n);
        assert(s.drop_last() =~= dec(n / 10));
        assert(s.last() == digit_char(n % 10));
        assert(digit_val(digit_char(n % 10)) == n % 10);
        assert(seq_val(s) == (n / 10) * 10 + n % 10);
        assert(n == (n / 10) * 10 + n % 10) by (nonlinear_arith);
        assert(forall|i: int| 0 <= i < s.len() ==> is_digit(#[trigger] s[i]));
    }
}

/// Whether two string slices hold the same characters.
pub fn str_eq(a: &str, b: &str) -> (r: bool)
    ensures
        r == (a@ == b@),
{
    let an = a.unicode_len();
    let bn = b.unicode_len();
    if an != bn {
        return false;
    }
    let mut i: usize = 0;
    while i < an
        invariant
            an == a@.len(),
            an == b@.len(),
            0 <= i <= an,
            forall|k: int| 0 <= k < i ==> a@[k] == b@[k],
        decreases an - i,
    {
        if a.get_char(i) != b.get_char(i) {
            return false;
        }
        i += 1;
    }
    proof {
        assert(a@ =~= b@);
    }
    true
}

/// Whether `t` starts with `p`, character for character.
pub fn str_starts_with(t: &str, p: &str) -> (r: bool)
    ensures
        r == (t@.len() >= p@.len() && t@.subrange(0, p@.len() as int) == p@),
{
    let tn = t.unicode_len();
    let pn = p.unicode_len();
    if tn < pn {
        return false;
    }
    let mut i: usize = 0;
    while i < pn
        invariant
            tn == t@.len(),
            pn == p@.len(),
            pn <= tn,
            0 <= i <= pn,
            forall|k: int| 0 <= k < i ==> t@[k] == p@[k],
        decreases pn - i,
    {
        if t.get_char(i) != p.get_char(i) {
            proof {
                assert(t@.subrange(0, p@.len() as int)[i as int] != p@[i as int]);
            }
            return false;
        }
        i += 1;
    }
    proof {
        assert(t@.subrange(0, p@.len() as int) =~= p@);
    }
    true
}

/// Splits a string on a separator character, as `str::split` does.
pub fn split_str(s: &str, sep: char) -> (parts: Vec<String>)
    ensures
        parts@.map_values(|p: String| p@) == split_on(s@, sep),
        parts@.len() >= 1,
{
    let n = s.unicode_len();
    let mut parts: Vec<String> = Vec::new();
    let mut start: usize = 0;
    let mut i: usize = 0;
    proof {
        assert(s@.subrange(0, n as int) =~= s@);
    }
    while i < n
        invariant
            n == s@.len(),
            0 <= start <= i <= n,
            split_on(s@, sep) == parts@.map_values(|p: String| p@)
                + split_on(s@.subrange(start as int, n as int), sep),
            forall|k: int| start <= k < i ==> s@[k] != sep,
        decreases n - i,
    {
        if s.get_char(i) == sep {
            let piece = String::from_str(s.substring_char(start, i));
            proof {
                let pre = s@.subrange(start as int, i as int);
                let post = s@.subrange(i + 1, n as int);
                assert(s@.subrange(start as int, n as int) =~= pre + seq![sep] + post);
                lemma_split_app(pre, post, sep);
                lemma_split_no_sep(pre, sep);
                assert(parts@.push(piece).map_values(|p: String| p@) =~~=
                    parts@.map_values(|p: String| p@).push(pre));
                assert(parts@.map_values(|p: String| p@) + (seq![pre] + split_on(post, sep)) =~~=
                    parts@.map_values(|p: String| p@).push(pre) + split_on(post, sep));
            }
            parts.push(piece);
            start = i + 1;
        }
        i += 1;
    }
    let piece = String::from_str(s.substring_char(start, n));
    proof {
        let tail = s@.subrange(start as int, n as int);
        lemma_split_no_sep(tail, sep);
        assert(parts@.push(piece).map_values(|p: String| p@) =~~=
            parts@.map_values(|p: String| p@).push(tail));
        assert(parts@.map_values(|p: String| p@) + seq![tail] =~~=
            parts@.map_values(|p: String| p@).push(tail));
    }
    parts.push(piece);
    parts
}

/// Joins `parts[from..to]` with `'-'`.
pub fn join_dash_range(parts: &Vec<String>, from: usize, to: usize) -> (r: String)
    requires
        from <= to <= parts@.len(),
    ensures
        r@ == join_on(parts@.map_values(|p: String| p@).subrange(from as int, to as int), '-'),
{
    let mut r = String::new();
    let mut i: usize = from;
    proof {
        assert(parts@.map_values(|p: String| p@).subrange(from as int, from as int)
            =~= Seq::<Seq<char>>::empty());
    }
    while i < to
        invariant
            from <= i <= to <= parts@.len(),
            r@ == join_on(parts@.map_values(|p: String| p@).subrange(from as int, i as int), '-'),
        decreases to - i,
    {
        proof {
            let views = parts@.map_values(|p: String| p@);
            assert(views.subrange(from as int, i + 1) =~~=
                views.subrange(from as int, i as int).push(views[i as int]));
            lemma_join_push(views.subrange(from as int, i as int), views[i as int], '-');
        }
        if i > from {
            r.append("-");
            proof {
                reveal_strlit("-");
                assert("-"@ =~= seq!['-']);
            }
        }
        r.append(parts[i].as_str());
        i += 1;
    }
    r
}

/// The string slice holding a single digit character.
pub fn digit_str(d: u32) -> (r: &'static str)
    requires
        d < 10,
    ensures
        r@ == seq![digit_char(d as nat)],
{
    proof {
        reveal_strlit("0");
        reveal_strlit("1");
        reveal_strlit("2");
        reveal_strlit("3");
        reveal_strlit("4");
        reveal_strlit("5");
        reveal_strlit("6");
        reveal_strlit("7");
        reveal_strlit("8");
        reveal_strlit("9");
    }
    let r = match d {
        0 => "0",
        1 => "1",
        2 => "2",
        3 => "3",
        4 => "4",
        5 => "5",
        6 => "6",
        7 => "7",
        8 => "8",
        _ => "9",
    };
    proof {
        assert(r@ =~= seq![digit_char(d as nat)]);
    }
    r
}

/// Renders a `u32` in canonical decimal.
pub fn u32_to_string(n: u32) -> (s: String)
    ensures
        s@ == dec(n as nat),
    decreases n,
{
    if n < 10 {
        String::from_str(digit_str(n))
    } else {
        let mut s = u32_to_string(n / 10);
        s.append(digit_str(n % 10));
        proof {
            assert(dec((n / 10) as nat).push(digit_char((n % 10) as nat)) =~=
                dec((n / 10) as nat) + seq![digit_char((n % 10) as nat)]);
        }
        s
    }
}

/// Parses a string of decimal digits as a `u32`; `None` when the string is
/// empty, holds a non-digit, or exceeds `u32::MAX`.
pub fn parse_u32_digits(s: &str) -> (r: Option<u32>)
    ensures
        parses_u32(s@) ==> r == Some(seq_val(s@) as u32),
        !parses_u32(s@) ==> r is None,
{
    let n = s.unicode_len();
    if n == 0 {
        return None;
    }
    let mut val: u64 = 0;
    let mut i: usize = 0;
    proof {
        assert(s@.subrange(0, 0) =~= Seq::<char>::empty());
    }
    while i < n
        invariant
            n == s@.len(),
            0 <= i <= n,
            all_digits(s@.subrange(0, i as int)),
            seq_val(s@.subrange(0, i as int)) <= u32::MAX ==>
                val == seq_val(s@.subrange(0, i as int)),
            seq_val(s@.subrange(0, i as int)) > u32::MAX ==> val == 4294967296u64,
            val <= 4294967296u64,
        decreases n - i,
    {
        let c = s.get_char(i);
        let cu = c as u32;
        if cu < 48 || cu > 57 {
            proof {
                assert(!is_digit(s@[i as int]));
            }
            return None;
        }
        let d = (cu - 48) as u64;
        proof {
            let pre = s@.subrange(0, i as int);
            let ext = s@.subrange(0, i + 1);
            assert(ext.drop_last() =~= pre);
            assert(ext.last() == s@[i as int]);
            assert(seq_val(ext) == seq_val(pre) * 10 + digit_val(s@[i as int]));
            if seq_val(pre) > u32::MAX {
                assert(seq_val(pre) * 10 >= seq_val(pre)) by (nonlinear_arith);
            }
        }
        let t = val * 10 + d;
        if t > 4294967295u64 {
            val = 4294967296u64;
        } else {
            val = t;
        }
        i += 1;
    }
    proof {
        assert(s@.subrange(0, n as int) =~= s@);
    }
    if val <= 4294967295u64 {
        Some(val as u32)
    } else {
        None
    }
}

} // verus!
