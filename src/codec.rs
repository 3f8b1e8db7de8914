use vstd::prelude::*;

verus! {

// ---------------------------------------------------------------- decimal numbers

pub open spec fn is_digit(b: u8) -> bool {
    48 <= b <= 57
}

pub open spec fn digit_byte(d: nat) -> u8 {
    (48 + d) as u8
}

/// Shortest decimal text of `n`.
pub open spec fn decimal(n: nat) -> Seq<u8>
    decreases n,
{
    if n < 10 {
        seq![digit_byte(n)]
    } else {
        decimal(n / 10).push(digit_byte(n % 10))
    }
}

/// Value of a run of decimal digits.
pub open spec fn digits_value(s: Seq<u8>) -> nat
    decreases s.len(),
{
    if s.len() == 0 {
        0
    } else {
        digits_value(s.drop_last()) * 10 + (s.last() - 48) as nat
    }
}

/// End of the maximal run of digits that starts at `i`.
pub open spec fn digit_run_end(s: Seq<u8>, i: int) -> int
    decreases s.len() - i,
{
    if 0 <= i < s.len() && is_digit(s[i]) {
        digit_run_end(s, i + 1)
    } else {
        i
    }
}

/// The unsigned number written at `i`, and where it ends.
pub open spec fn number_at(s: Seq<u8>, i: int, max: nat) -> Option<(nat, int)> {
    let e = digit_run_end(s, i);
    if e == i || digits_value(s.subrange(i, e)) > max {
        None
    } else {
        Some((digits_value(s.subrange(i, e)), e))
    }
}

pub proof fn lemma_decimal(n: nat)
    ensures
        decimal(n).len() >= 1,
        forall|k: int| 0 <= k < decimal(n).len() ==> is_digit(#[trigger] decimal(n)[k]),
        digits_value(decimal(n)) == n,
    decreases n,
{
    if n >= 10 {
        lemma_decimal(n / 10);
        assert(decimal(n).drop_last() =~= decimal(n / 10));
        assert(decimal(n).last() == digit_byte(n % 10));
        assert((n / 10) * 10 + n % 10 == n) by (nonlinear_arith);
        assert((digit_byte(n % 10) - 48) as nat == n % 10);
    } else {
        assert(decimal(n).drop_last() =~= Seq::<u8>::empty());
        assert(digits_value(Seq::<u8>::empty()) == 0);
        assert((digit_byte(n) - 48) as nat == n);
    }
}

proof fn lemma_digit_run_end_bounds(s: Seq<u8>, i: int)
    requires
        0 <= i <= s.len(),
    ensures
        i <= digit_run_end(s, i) <= s.len(),
        forall|k: int| i <= k < digit_run_end(s, i) ==> is_digit(#[trigger] s[k]),
        digit_run_end(s, i) == s.len() || !is_digit(s[digit_run_end(s, i)]),
    decreases s.len() - i,
{
    if i < s.len() && is_digit(s[i]) {
        lemma_digit_run_end_bounds(s, i + 1);
    }
}

/// A run of digits followed by a non-digit ends where the run does.
pub(crate) proof fn lemma_digit_run_end_of(s: Seq<u8>, i: int, e: int)
    requires
        0 <= i <= e <= s.len(),
        forall|k: int| i <= k < e ==> is_digit(#[trigger] s[k]),
        e == s.len() || !is_digit(s[e]),
    ensures
        digit_run_end(s, i) == e,
    decreases e - i,
{
    if i < e {
        lemma_digit_run_end_of(s, i + 1, e);
    }
}

proof fn lemma_digits_value_grows(s: Seq<u8>, i: int, j: int)
    requires
        0 <= i <= j <= s.len(),
    ensures
        digits_value(s.subrange(0, i)) <= digits_value(s.subrange(0, j)),
    decreases j - i,
{
    if i < j {
        lemma_digits_value_grows(s, i, j - 1);
        assert(s.subrange(0, j).drop_last() =~= s.subrange(0, j - 1));
    }
}

/// Appends the decimal text of `n`.
pub fn push_decimal(out: &mut Vec<u8>, n: u64)
    ensures
        final(out)@ == old(out)@ + decimal(n as nat),
    decreases n,
{
    if n >= 10 {
        push_decimal(out, n / 10);
    }
    out.push(48u8 + (n % 10) as u8);
    assert(final(out)@ =~= old(out)@ + decimal(n as nat));
}

/// Reads the unsigned number at `pos`: `None` when no digit stands there or it exceeds `max`.
pub fn read_number(s: &[u8], pos: usize, max: u64) -> (r: Option<(u64, usize)>)
    requires
        pos <= s@.len(),
    ensures
        match r {
            Some((v, e)) => number_at(s@, pos as int, max as nat) == Some((v as nat, e as int)),
            None => number_at(s@, pos as int, max as nat) is None,
        },
{
    let ghost run = s@.subrange(pos as int, digit_run_end(s@, pos as int));
    proof {
        lemma_digit_run_end_bounds(s@, pos as int);
    }
    let mut v: u64 = 0;
    let mut i: usize = pos;
    while i < s.len() && 48 <= s[i] && s[i] <= 57
        invariant
            pos <= i <= s@.len(),
            digit_run_end(s@, i as int) == digit_run_end(s@, pos as int),
            pos <= i <= digit_run_end(s@, pos as int),
            run == s@.subrange(pos as int, digit_run_end(s@, pos as int)),
            v as nat == digits_value(run.subrange(0, i - pos)),
            v <= max,
            run.len() == digit_run_end(s@, pos as int) - pos,
        decreases s@.len() - i,
    {
        let d = (s[i] - 48) as u64;
        proof {
            lemma_digit_run_end_bounds(s@, i + 1);
            assert(run[i - pos] == s@[i as int]);
        }
        assert(run.subrange(0, i + 1 - pos).drop_last() =~= run.subrange(0, i - pos));
        if (v as u128) * 10 + (d as u128) > max as u128 {
            proof {
                lemma_digits_value_grows(run, i + 1 - pos, run.len() as int);
                assert(run.subrange(0, run.len() as int) =~= run);
            }
            return None;
        }
        v = v * 10 + d;
        i = i + 1;
    }
    assert(run.subrange(0, i - pos) =~= run);
    if i == pos {
        None
    } else {
        Some((v, i))
    }
}

// ---------------------------------------------------------------- quoted text

pub open spec fn hex_digit(d: nat) -> u8 {
    if d < 10 {
        (48 + d) as u8
    } else {
        (87 + d) as u8
    }
}

pub open spec fn hex_value(b: u8) -> Option<nat> {
    if 48 <= b <= 57 {
        Some((b - 48) as nat)
    } else if 97 <= b <= 102 {
        Some((b - 87) as nat)
    } else if 65 <= b <= 70 {
        Some((b - 55) as nat)
    } else {
        None
    }
}

/// How one byte of text is written between quotes: `"` and `\` take a backslash, control bytes
/// take the `\u00XX` form, every other byte stands for itself.
pub open spec fn escape_byte(b: u8) -> Seq<u8> {
    if b == 34 || b == 92 {
        seq![92u8, b]
    } else if b < 32 {
        seq![92u8, 117u8, 48u8, 48u8, hex_digit((b / 16) as nat), hex_digit((b % 16) as nat)]
    } else {
        seq![b]
    }
}

pub open spec fn escape(s: Seq<u8>) -> Seq<u8>
    decreases s.len(),
{
    if s.len() == 0 {
        Seq::empty()
    } else {
        escape(s.drop_last()) + escape_byte(s.last())
    }
}

/// Byte denoted by the one-letter escape `\c`.
pub open spec fn short_escape(c: u8) -> Option<u8> {
    if c == 34 || c == 92 || c == 47 {
        Some(c)
    } else if c == 110 {
        Some(10u8)
    } else if c == 116 {
        Some(9u8)
    } else if c == 114 {
        Some(13u8)
    } else if c == 98 {
        Some(8u8)
    } else if c == 102 {
        Some(12u8)
    } else {
        None
    }
}

/// Byte denoted by `\u00XY` at `i`, for an ASCII code point.
pub open spec fn unicode_escape(s: Seq<u8>, i: int) -> Option<u8> {
    if 0 <= i && i + 5 < s.len() && s[i + 1] == 117 && s[i + 2] == 48 && s[i + 3] == 48
        && hex_value(s[i + 4]) is Some && hex_value(s[i + 4]).unwrap() < 8
        && hex_value(s[i + 5]) is Some {
        Some((hex_value(s[i + 4]).unwrap() * 16 + hex_value(s[i + 5]).unwrap()) as u8)
    } else {
        None
    }
}

/// Text between quotes from `i` on, after `acc`: the unescaped text and the index after the
/// closing quote.
pub open spec fn string_body(s: Seq<u8>, i: int, acc: Seq<u8>) -> Option<(Seq<u8>, int)>
    decreases s.len() - i,
{
    if i < 0 || i >= s.len() {
        None
    } else if s[i] == 34 {
        Some((acc, i + 1))
    } else if s[i] == 92 {
        if i + 1 < s.len() && short_escape(s[i + 1]) is Some {
            string_body(s, i + 2, acc.push(short_escape(s[i + 1]).unwrap()))
        } else if unicode_escape(s, i) is Some {
            string_body(s, i + 6, acc.push(unicode_escape(s, i).unwrap()))
        } else {
            None
        }
    } else if s[i] < 32 {
        None
    } else {
        string_body(s, i + 1, acc.push(s[i]))
    }
}

pub proof fn lemma_escape_concat(a: Seq<u8>, b: Seq<u8>)
    ensures
        escape(a + b) == escape(a) + escape(b),
    decreases b.len(),
{
    if b.len() == 0 {
        assert(a + b =~= a);
        assert(escape(a) + escape(b) =~= escape(a));
    } else {
        lemma_escape_concat(a, b.drop_last());
        assert((a + b).drop_last() =~= a + b.drop_last());
        assert(escape(a) + escape(b) =~= escape(a) + escape(b.drop_last()) + escape_byte(b.last()));
    }
}

proof fn lemma_escape_front(c: Seq<u8>)
    requires
        c.len() > 0,
    ensures
        escape(c) == escape_byte(c[0]) + escape(c.subrange(1, c.len() as int)),
{
    lemma_escape_concat(seq![c[0]], c.subrange(1, c.len() as int));
    assert(seq![c[0]] + c.subrange(1, c.len() as int) =~= c);
    assert(seq![c[0]].drop_last() =~= Seq::<u8>::empty());
    assert(escape(Seq::<u8>::empty()) + escape_byte(c[0]) =~= escape_byte(c[0]));
}

/// Escaped text followed by a quote reads back as the text itself.
pub proof fn lemma_string_body(s: Seq<u8>, i: int, acc: Seq<u8>, c: Seq<u8>)
    requires
        0 <= i,
        i + escape(c).len() < s.len(),
        s.subrange(i, i + escape(c).len()) == escape(c),
        s[i + escape(c).len()] == 34,
    ensures
        string_body(s, i, acc) == Some((acc + c, i + escape(c).len() + 1)),
    decreases c.len(),
{
    if c.len() == 0 {
        assert(acc + c =~= acc);
        assert(escape(c).len() == 0);
    } else {
        let rest = c.subrange(1, c.len() as int);
        let e0 = escape_byte(c[0]);
        lemma_escape_front(c);
        let n = e0.len() as int;
        assert(s.subrange(i + n, i + n + escape(rest).len()) =~= escape(rest)) by {
            assert forall|k: int| 0 <= k < escape(rest).len() implies s[i + n + k] == escape(
                rest,
            )[k] by {
                assert(s.subrange(i, i + escape(c).len())[n + k] == escape(c)[n + k]);
            }
        }
        assert forall|k: int| 0 <= k < n implies s[i + k] == e0[k] by {
            assert(s.subrange(i, i + escape(c).len())[k] == escape(c)[k]);
        }
        lemma_string_body(s, i + n, acc.push(c[0]), rest);
        assert(acc.push(c[0]) + rest =~= acc + c);
        let b = c[0];
        assert(s[i] == e0[0]);
        if b == 34 || b == 92 {
            assert(s[i + 1] == b);
            assert(short_escape(s[i + 1]) == Some(b));
            assert(string_body(s, i, acc) == string_body(s, i + 2, acc.push(b)));
        } else if b < 32 {
            assert(s[i] == 92 && s[i + 1] == 117 && s[i + 2] == 48 && s[i + 3] == 48);
            assert(!(i + 1 < s.len() && short_escape(s[i + 1]) is Some));
            assert(s[i + 4] == hex_digit((b / 16) as nat));
            assert(s[i + 5] == hex_digit((b % 16) as nat));
            assert(hex_value(s[i + 4]) == Some((b / 16) as nat));
            assert(hex_value(s[i + 5]) == Some((b % 16) as nat));
            assert(unicode_escape(s, i) == Some(b));
            assert(string_body(s, i, acc) == string_body(s, i + 6, acc.push(b)));
        } else {
            assert(s[i] == b);
            assert(string_body(s, i, acc) == string_body(s, i + 1, acc.push(b)));
        }
    }
}

/// Appends `b` as it is written between quotes.
pub fn push_escaped(out: &mut Vec<u8>, b: &[u8])
    ensures
        final(out)@ == old(out)@ + escape(b@),
{
    let mut i: usize = 0;
    while i < b.len()
        invariant
            i <= b@.len(),
            out@ == old(out)@ + escape(b@.subrange(0, i as int)),
        decreases b@.len() - i,
    {
        let x = b[i];
        assert(b@.subrange(0, i + 1).drop_last() =~= b@.subrange(0, i as int));
        if x == 34 || x == 92 {
            out.push(92u8);
            out.push(x);
        } else if x < 32 {
            let hi = x / 16;
            let lo = x % 16;
            out.push(92u8);
            out.push(117u8);
            out.push(48u8);
            out.push(48u8);
            out.push(48u8 + hi);
            out.push(if lo < 10 { 48u8 + lo } else { 87u8 + lo });
        } else {
            out.push(x);
        }
        assert(out@ =~= old(out)@ + escape(b@.subrange(0, i + 1)));
        i = i + 1;
    }
    assert(b@.subrange(0, b@.len() as int) =~= b@);
}

/// Reads quoted text whose opening quote stands just before `pos`.
pub fn read_string(s: &[u8], pos: usize) -> (r: Option<(Vec<u8>, usize)>)
    ensures
        match r {
            Some((t, e)) => string_body(s@, pos as int, Seq::empty()) == Some((t@, e as int)),
            None => string_body(s@, pos as int, Seq::empty()) is None,
        },
{
    let mut out: Vec<u8> = Vec::new();
    let mut i: usize = pos;
    loop
        invariant
            i >= pos,
            string_body(s@, pos as int, Seq::empty()) == string_body(s@, i as int, out@),
        decreases s@.len() - i,
    {
        if i >= s.len() {
            return None;
        }
        let x = s[i];
        if x == 34 {
            return Some((out, i + 1));
        } else if x == 92 {
            if i + 1 >= s.len() {
                return None;
            }
            let c = s[i + 1];
            let short: Option<u8> = if c == 34 || c == 92 || c == 47 {
                Some(c)
            } else if c == 110 {
                Some(10u8)
            } else if c == 116 {
                Some(9u8)
            } else if c == 114 {
                Some(13u8)
            } else if c == 98 {
                Some(8u8)
            } else if c == 102 {
                Some(12u8)
            } else {
                None
            };
            match short {
                Some(v) => {
                    out.push(v);
                    i = i + 2;
                },
                None => {
                    if c != 117 || s.len() - i <= 5 || s[i + 2] != 48 || s[i + 3] != 48 {
                        return None;
                    }
                    let hi = hex_of(s[i + 4]);
                    let lo = hex_of(s[i + 5]);
                    match (hi, lo) {
                        (Some(h), Some(l)) => {
                            if h >= 8 {
                                return None;
                            }
                            out.push(h * 16 + l);
                            i = i + 6;
                        },
                        _ => {
                            return None;
                        },
                    }
                },
            }
        } else if x < 32 {
            return None;
        } else {
            out.push(x);
            i = i + 1;
        }
    }
}

fn hex_of(b: u8) -> (r: Option<u8>)
    ensures
        match r {
            Some(v) => hex_value(b) == Some(v as nat) && v < 16,
            None => hex_value(b) is None,
        },
{
    if 48 <= b && b <= 57 {
        Some(b - 48)
    } else if 97 <= b && b <= 102 {
        Some(b - 87)
    } else if 65 <= b && b <= 70 {
        Some(b - 55)
    } else {
        None
    }
}

} // verus!
