//! The persisted record of a training run: the winning brain and its
//! fitness, as one flat structured text record. The writer produces the one
//! canonical encoding of a record; the reader accepts exactly the canonical
//! encodings and nothing else, so a record round-trips bit for bit and a
//! malformed file is reported, never guessed at.

use vstd::prelude::*;
use crate::brain::{Brain, SPEED_MAX_FX, SPEED_MIN_FX, brain_valid};
use crate::fixed::MICRO;
use crate::world::TOTAL_VALUE_MAX_FX;

verus! {

/// The unit of persistence: a brain and the fitness it scored.
#[derive(Clone, Copy, PartialEq, Eq, Structural, Debug)]
pub struct Model {
    /// The winning brain.
    pub brain: Brain,
    /// The fitness it reached, in micro-units of food value.
    pub fitness: i64,
}

/// A record that can be persisted: a valid brain and a fitness a run could
/// have produced.
pub open spec fn model_valid(m: Model) -> bool {
    &&& brain_valid(m.brain)
    &&& 0 <= m.fitness <= TOTAL_VALUE_MAX_FX
}

/// Whether a byte is a decimal digit.
pub open spec fn is_digit(b: u8) -> bool {
    48 <= b <= 57
}

/// The decimal digits of `n`, most significant first, without leading
/// zeros; `0` itself is the single digit `0`.
pub open spec fn spec_digits(n: int) -> Seq<u8>
    decreases n,
{
    if n < 10 {
        seq![(48 + n) as u8]
    } else {
        spec_digits(n / 10).push((48 + n % 10) as u8)
    }
}

/// The value of a digit string, read left to right.
pub open spec fn digits_value(d: Seq<u8>) -> int
    decreases d.len(),
{
    if d.len() == 0 {
        0
    } else {
        digits_value(d.drop_last()) * 10 + (d.last() - 48)
    }
}

/// The opening of the record, through the brain object, up to the first
/// value.
pub open spec fn key_head() -> Seq<u8> {
    seq![
        123u8, 34, 98, 114, 97, 105, 110, 34, 58, 123, 34, 102, 111, 111, 100, 95, 97, 116, 116,
        114, 97, 99, 116, 105, 111, 110, 34, 58,
    ]
}

/// The separator in front of the speed value.
pub open spec fn key_speed() -> Seq<u8> {
    seq![44u8, 34, 115, 112, 101, 101, 100, 95, 102, 97, 99, 116, 111, 114, 34, 58]
}

/// The separator in front of the life threshold value.
pub open spec fn key_life() -> Seq<u8> {
    seq![
        44u8, 34, 108, 105, 102, 101, 95, 116, 104, 114, 101, 115, 104, 111, 108, 100, 34, 58,
    ]
}

/// The close of the brain object and the separator in front of the
/// fitness value.
pub open spec fn key_fit() -> Seq<u8> {
    seq![125u8, 44, 34, 102, 105, 116, 110, 101, 115, 115, 34, 58]
}

/// The closing brace of the record.
pub open spec fn key_end() -> Seq<u8> {
    seq![125u8]
}

/// The canonical encoding of a record: the four values in fixed order, in
/// micro-units, between the fixed keys.
pub open spec fn spec_encode(m: Model) -> Seq<u8> {
    key_head() + spec_digits(m.brain.food_attraction as int) + key_speed() + spec_digits(
        m.brain.speed_factor as int,
    ) + key_life() + spec_digits(m.brain.life_threshold as int) + key_fit() + spec_digits(
        m.fitness as int,
    ) + key_end()
}

/// The shape of a canonical digit string: nonempty, all digits, no leading
/// zero unless it is exactly `0`, and it reads back to its value.
pub proof fn lemma_spec_digits_shape(n: int)
    requires
        0 <= n,
    ensures
        spec_digits(n).len() >= 1,
        n >= 10 ==> spec_digits(n).len() >= 2,
        forall|k: int| 0 <= k < spec_digits(n).len() ==> is_digit(#[trigger] spec_digits(n)[k]),
        spec_digits(n).len() > 1 ==> spec_digits(n)[0] != 48,
        digits_value(spec_digits(n)) == n,
    decreases n,
{
    if n < 10 {
        assert(spec_digits(n) =~= seq![(48 + n) as u8]);
        assert(spec_digits(n).drop_last() =~= Seq::<u8>::empty());
        assert(digits_value(Seq::<u8>::empty()) == 0);
        assert(spec_digits(n).last() == (48 + n) as u8);
    } else {
        vstd::arithmetic::div_mod::lemma_fundamental_div_mod(n, 10);
        vstd::arithmetic::div_mod::lemma_div_pos_is_pos(n, 10);
        vstd::arithmetic::div_mod::lemma_div_is_ordered(10, n, 10);
        vstd::arithmetic::div_mod::lemma_mod_bound(n, 10);
        lemma_spec_digits_shape(n / 10);
        assert(spec_digits(n).drop_last() =~= spec_digits(n / 10));
        assert(spec_digits(n).last() == (48 + n % 10) as u8);
        assert(spec_digits(n)[0] == spec_digits(n / 10)[0]);
        assert(1 <= n / 10);
        if n / 10 < 10 {
            assert(spec_digits(n / 10) =~= seq![(48 + n / 10) as u8]);
            assert(spec_digits(n / 10)[0] != 48);
        }
        assert(digits_value(spec_digits(n)) == digits_value(spec_digits(n / 10)) * 10 + ((48 + n
            % 10) as u8 - 48));
    }
}

/// A digit string's value is non-negative.
pub proof fn lemma_digits_value_nonneg(d: Seq<u8>)
    requires
        forall|k: int| 0 <= k < d.len() ==> is_digit(#[trigger] d[k]),
    ensures
        digits_value(d) >= 0,
    decreases d.len(),
{
    if d.len() > 0 {
        lemma_digits_value_nonneg(d.drop_last());
    }
}

/// Reading a prefix of a digit string never overshoots the whole string's
/// value.
pub proof fn lemma_digits_prefix_le(d: Seq<u8>, k: int)
    requires
        forall|q: int| 0 <= q < d.len() ==> is_digit(#[trigger] d[q]),
        0 <= k <= d.len(),
    ensures
        digits_value(d.take(k)) <= digits_value(d),
    decreases d.len(),
{
    if k < d.len() {
        lemma_digits_value_nonneg(d.drop_last());
        assert(d.drop_last().take(k) =~= d.take(k));
        lemma_digits_prefix_le(d.drop_last(), k);
    } else {
        assert(d.take(k) =~= d);
    }
}

/// A nonempty digit string without a leading zero reads back as a value
/// whose canonical digits are that very string.
pub proof fn lemma_digits_canonical(d: Seq<u8>)
    requires
        d.len() >= 1,
        forall|k: int| 0 <= k < d.len() ==> is_digit(#[trigger] d[k]),
        d.len() > 1 ==> d[0] != 48,
    ensures
        digits_value(d) >= 0,
        spec_digits(digits_value(d)) == d,
    decreases d.len(),
{
    lemma_digits_value_nonneg(d);
    if d.len() == 1 {
        assert(d.drop_last() =~= Seq::<u8>::empty());
        assert(digits_value(Seq::<u8>::empty()) == 0);
        assert(digits_value(d) == d[0] - 48);
        assert(spec_digits(digits_value(d)) =~= d);
    } else {
        let front = d.drop_last();
        lemma_digits_canonical(front);
        lemma_digits_front_positive(front);
        let v = digits_value(d);
        let vf = digits_value(front);
        vstd::arithmetic::div_mod::lemma_fundamental_div_mod_converse(
            v,
            10,
            vf,
            (d.last() - 48) as int,
        );
        assert(v >= 10);
        assert(spec_digits(v) == spec_digits(vf).push((48 + v % 10) as u8));
        assert((48 + v % 10) as u8 == d.last());
        assert(front.push(d.last()) =~= d);
    }
}

/// A nonempty digit string that does not start with zero has value at least
/// one.
proof fn lemma_digits_front_positive(d: Seq<u8>)
    requires
        d.len() >= 1,
        forall|k: int| 0 <= k < d.len() ==> is_digit(#[trigger] d[k]),
        d[0] != 48,
    ensures
        digits_value(d) >= 1,
    decreases d.len(),
{
    if d.len() == 1 {
        assert(d.drop_last() =~= Seq::<u8>::empty());
        assert(digits_value(Seq::<u8>::empty()) == 0);
        assert(digits_value(d) == d[0] - 48);
    } else {
        let front = d.drop_last();
        assert forall|k: int| 0 <= k < front.len() implies is_digit(#[trigger] front[k]) by {
            assert(front[k] == d[k]);
        }
        assert(front[0] == d[0]);
        lemma_digits_front_positive(front);
        assert(digits_value(d) == digits_value(front) * 10 + (d.last() - 48));
    }
}

/// Appends the canonical digits of `n` to a byte buffer.
fn push_digits(out: &mut Vec<u8>, n: u64)
    ensures
        final(out)@ == old(out)@ + spec_digits(n as int),
    decreases n,
{
    if n < 10 {
        out.push(48 + (n as u8));
        proof {
            assert(out@ =~= old(out)@ + spec_digits(n as int));
        }
    } else {
        push_digits(out, n / 10);
        out.push(48 + ((n % 10) as u8));
        proof {
            assert(out@ =~= old(out)@ + spec_digits(n as int));
        }
    }
}

/// Appends a fixed key fragment, chosen by the four fragment builders
/// below.
fn push_head(out: &mut Vec<u8>)
    ensures
        final(out)@ == old(out)@ + key_head(),
{
    out.push(123);
    out.push(34);
    out.push(98);
    out.push(114);
    out.push(97);
    out.push(105);
    out.push(110);
    out.push(34);
    out.push(58);
    out.push(123);
    out.push(34);
    out.push(102);
    out.push(111);
    out.push(111);
    out.push(100);
    out.push(95);
    out.push(97);
    out.push(116);
    out.push(116);
    out.push(114);
    out.push(97);
    out.push(99);
    out.push(116);
    out.push(105);
    out.push(111);
    out.push(110);
    out.push(34);
    out.push(58);
    proof {
        assert(out@ =~= old(out)@ + key_head());
    }
}

/// Appends the speed separator.
fn push_speed_key(out: &mut Vec<u8>)
    ensures
        final(out)@ == old(out)@ + key_speed(),
{
    out.push(44);
    out.push(34);
    out.push(115);
    out.push(112);
    out.push(101);
    out.push(101);
    out.push(100);
    out.push(95);
    out.push(102);
    out.push(97);
    out.push(99);
    out.push(116);
    out.push(111);
    out.push(114);
    out.push(34);
    out.push(58);
    proof {
        assert(out@ =~= old(out)@ + key_speed());
    }
}

/// Appends the life-threshold separator.
fn push_life_key(out: &mut Vec<u8>)
    ensures
        final(out)@ == old(out)@ + key_life(),
{
    out.push(44);
    out.push(34);
    out.push(108);
    out.push(105);
    out.push(102);
    out.push(101);
    out.push(95);
    out.push(116);
    out.push(104);
    out.push(114);
    out.push(101);
    out.push(115);
    out.push(104);
    out.push(111);
    out.push(108);
    out.push(100);
    out.push(34);
    out.push(58);
    proof {
        assert(out@ =~= old(out)@ + key_life());
    }
}

/// Appends the fitness separator.
fn push_fit_key(out: &mut Vec<u8>)
    ensures
        final(out)@ == old(out)@ + key_fit(),
{
    out.push(125);
    out.push(44);
    out.push(34);
    out.push(102);
    out.push(105);
    out.push(116);
    out.push(110);
    out.push(101);
    out.push(115);
    out.push(115);
    out.push(34);
    out.push(58);
    proof {
        assert(out@ =~= old(out)@ + key_fit());
    }
}

/// Encodes a record into its canonical byte string.
#[verifier::rlimit(50)]
pub fn encode_model(m: &Model) -> (r: Vec<u8>)
    requires
        model_valid(*m),
    ensures
        r@ == spec_encode(*m),
{
    let mut out: Vec<u8> = Vec::new();
    push_head(&mut out);
    push_digits(&mut out, m.brain.food_attraction as u64);
    push_speed_key(&mut out);
    push_digits(&mut out, m.brain.speed_factor as u64);
    push_life_key(&mut out);
    push_digits(&mut out, m.brain.life_threshold as u64);
    push_fit_key(&mut out);
    push_digits(&mut out, m.fitness as u64);
    out.push(125);
    proof {
        assert(out@ =~= spec_encode(*m));
    }
    out
}

/// Whether the canonical digits of `v` sit in `s` at position `i`, followed
/// by the string's end or a byte that is not a digit.
pub open spec fn digits_at(s: Seq<u8>, i: int, v: int) -> bool {
    &&& 0 <= i
    &&& i + spec_digits(v).len() <= s.len()
    &&& s.subrange(i, i + spec_digits(v).len()) == spec_digits(v)
    &&& (i + spec_digits(v).len() == s.len() || !is_digit(s[i + spec_digits(v).len()]))
}

/// Only one value's digits can sit at one position: the digit run and its
/// non-digit follower leave no room for a second reading.
pub proof fn lemma_digits_at_unique(s: Seq<u8>, i: int, v1: int, v2: int)
    requires
        0 <= v1,
        0 <= v2,
        digits_at(s, i, v1),
        digits_at(s, i, v2),
    ensures
        v1 == v2,
{
    lemma_spec_digits_shape(v1);
    lemma_spec_digits_shape(v2);
    let l1 = spec_digits(v1).len() as int;
    let l2 = spec_digits(v2).len() as int;
    if l1 < l2 {
        assert(s[i + l1] == spec_digits(v2)[l1]);
        assert(is_digit(s[i + l1]));
    } else if l2 < l1 {
        assert(s[i + l2] == spec_digits(v1)[l2]);
        assert(is_digit(s[i + l2]));
    } else {
        assert(spec_digits(v1) =~= spec_digits(v2));
        assert(digits_value(spec_digits(v1)) == digits_value(spec_digits(v2)));
    }
}

/// Reads one canonical number at `i`: a run of digits without a leading
/// zero, stopped by the end or a non-digit, refused if it overshoots the
/// largest value a record can hold. Exactly the positions where some
/// value's canonical digits sit yield that value.
pub fn parse_number(s: &Vec<u8>, i: usize) -> (r: Option<(i64, usize)>)
    requires
        i <= s@.len(),
    ensures
        r matches Some(p) ==> {
            &&& i < p.1 <= s@.len()
            &&& 0 <= p.0 <= TOTAL_VALUE_MAX_FX
            &&& s@.subrange(i as int, p.1 as int) == spec_digits(p.0 as int)
            &&& (p.1 == s@.len() || !is_digit(s@[p.1 as int]))
        },
        forall|v: int|
            0 <= v <= TOTAL_VALUE_MAX_FX && digits_at(s@, i as int, v) ==> r == Some(
                (v as i64, (i + spec_digits(v).len()) as usize),
            ),
{
    let n = s.len();
    if i == n || s[i] < 48 || s[i] > 57 {
        proof {
            assert forall|v: int| 0 <= v <= TOTAL_VALUE_MAX_FX && digits_at(s@, i as int, v)
                implies false by {
                lemma_spec_digits_shape(v);
                assert(s@[i as int] == spec_digits(v)[0]);
            }
        }
        return None;
    }
    let mut acc: u64 = (s[i] - 48) as u64;
    let mut j: usize = i + 1;
    proof {
        assert(s@.subrange(i as int, j as int) =~= seq![s@[i as int]]);
        assert(s@.subrange(i as int, j as int).drop_last() =~= Seq::<u8>::empty());
        assert(digits_value(Seq::<u8>::empty()) == 0);
    }
    while j < n && 48 <= s[j] && s[j] <= 57
        invariant
            i < j <= n == s@.len(),
            forall|q: int| i <= q < j ==> is_digit(#[trigger] s@[q]),
            acc as int == digits_value(s@.subrange(i as int, j as int)),
            0 <= acc <= TOTAL_VALUE_MAX_FX as u64,
        decreases n - j,
    {
        let d: u64 = (s[j] - 48) as u64;
        if acc > ((TOTAL_VALUE_MAX_FX as u64) - d) / 10 {
            proof {
                vstd::arithmetic::div_mod::lemma_fundamental_div_mod(
                    TOTAL_VALUE_MAX_FX - d,
                    10,
                );
                vstd::arithmetic::div_mod::lemma_mod_bound(TOTAL_VALUE_MAX_FX - d, 10);
                assert(acc * 10 + d > TOTAL_VALUE_MAX_FX);
                assert forall|v: int| 0 <= v <= TOTAL_VALUE_MAX_FX && digits_at(s@, i as int, v)
                    implies false by {
                    lemma_spec_digits_shape(v);
                    let dv = spec_digits(v);
                    let l = dv.len() as int;
                    if i + l <= j {
                        assert(is_digit(s@[i + l]));
                    } else {
                        assert(dv.take(j - i + 1) =~= s@.subrange(i as int, j + 1));
                        lemma_digits_prefix_le(dv, j - i + 1);
                        assert(s@.subrange(i as int, j + 1).drop_last() =~= s@.subrange(
                            i as int,
                            j as int,
                        ));
                        assert(digits_value(s@.subrange(i as int, j + 1)) == acc * 10 + d);
                    }
                }
            }
            return None;
        }
        proof {
            vstd::arithmetic::div_mod::lemma_fundamental_div_mod(TOTAL_VALUE_MAX_FX - d, 10);
            vstd::arithmetic::div_mod::lemma_mod_bound(TOTAL_VALUE_MAX_FX - d, 10);
            assert(s@.subrange(i as int, j + 1).drop_last() =~= s@.subrange(i as int, j as int));
        }
        acc = acc * 10 + d;
        j = j + 1;
    }
    if s[i] == 48 && j > i + 1 {
        proof {
            assert forall|v: int| 0 <= v <= TOTAL_VALUE_MAX_FX && digits_at(s@, i as int, v)
                implies false by {
                lemma_spec_digits_shape(v);
                let dv = spec_digits(v);
                if dv.len() == 1 {
                    assert(is_digit(s@[i + 1]));
                } else {
                    assert(dv[0] == s@[i as int]);
                }
            }
        }
        return None;
    }
    proof {
        lemma_digits_canonical(s@.subrange(i as int, j as int));
        assert forall|v: int| 0 <= v <= TOTAL_VALUE_MAX_FX && digits_at(s@, i as int, v)
            implies Some((acc as i64, j)) == Some((v as i64, (i + spec_digits(v).len()) as usize))
            by {
            lemma_spec_digits_shape(v);
            let dv = spec_digits(v);
            let l = dv.len() as int;
            if i + l < j {
                assert(is_digit(s@[i + l]));
            } else if i + l > j {
                assert(dv[j - i] == s@[j as int]);
                assert(is_digit(s@[j as int]));
            } else {
                assert(dv =~= s@.subrange(i as int, j as int));
                assert(digits_value(dv) == digits_value(s@.subrange(i as int, j as int)));
            }
        }
    }
    Some((acc as i64, j))
}

/// Checks that the bytes of `pat` sit in `s` at position `i` and steps past
/// them: the match succeeds exactly on a full, equal prefix.
fn expect(s: &Vec<u8>, i: usize, pat: &Vec<u8>) -> (r: Option<usize>)
    requires
        i <= s@.len(),
    ensures
        r matches Some(j) ==> j == i + pat@.len() && j <= s@.len() && s@.subrange(
            i as int,
            j as int,
        ) == pat@,
        r is None ==> !(i + pat@.len() <= s@.len() && s@.subrange(i as int, i + pat@.len())
            == pat@),
{
    if pat.len() > s.len() - i {
        return None;
    }
    let mut k: usize = 0;
    while k < pat.len()
        invariant
            0 <= k <= pat@.len(),
            i + pat@.len() <= s@.len() <= usize::MAX,
            forall|q: int| 0 <= q < k ==> s@[i + q] == pat@[q],
        decreases pat@.len() - k,
    {
        if s[i + k] != pat[k] {
            proof {
                if i + pat@.len() <= s@.len() && s@.subrange(i as int, i + pat@.len()) == pat@ {
                    assert(s@.subrange(i as int, i + pat@.len())[k as int] == s@[i + k]);
                }
            }
            return None;
        }
        k = k + 1;
    }
    proof {
        assert(s@.subrange(i as int, i + pat@.len()) =~= pat@);
    }
    Some(i + pat.len())
}

/// The opening key bytes, as a buffer for the reader.
fn key_head_vec() -> (r: Vec<u8>)
    ensures
        r@ == key_head(),
{
    let mut out: Vec<u8> = Vec::new();
    push_head(&mut out);
    proof {
        assert(out@ =~= key_head());
    }
    out
}

/// The speed separator bytes, as a buffer for the reader.
fn key_speed_vec() -> (r: Vec<u8>)
    ensures
        r@ == key_speed(),
{
    let mut out: Vec<u8> = Vec::new();
    push_speed_key(&mut out);
    proof {
        assert(out@ =~= key_speed());
    }
    out
}

/// The life-threshold separator bytes, as a buffer for the reader.
fn key_life_vec() -> (r: Vec<u8>)
    ensures
        r@ == key_life(),
{
    let mut out: Vec<u8> = Vec::new();
    push_life_key(&mut out);
    proof {
        assert(out@ =~= key_life());
    }
    out
}

/// The fitness separator bytes, as a buffer for the reader.
fn key_fit_vec() -> (r: Vec<u8>)
    ensures
        r@ == key_fit(),
{
    let mut out: Vec<u8> = Vec::new();
    push_fit_key(&mut out);
    proof {
        assert(out@ =~= key_fit());
    }
    out
}


/// A string that carries the keys and the four digit runs at their places,
/// and nothing after the closing brace, is the canonical encoding.
proof fn lemma_parse_assembles(
    s: Seq<u8>,
    m: Model,
    i2: int,
    i4: int,
    i6: int,
    i8: int,
)
    requires
        28 <= i2 <= i2 + 16 <= i4 <= i4 + 18 <= i6 <= i6 + 12 <= i8 <= s.len(),
        s.subrange(0, 28) == key_head(),
        s.subrange(28, i2) == spec_digits(m.brain.food_attraction as int),
        s.subrange(i2, i2 + 16) == key_speed(),
        s.subrange(i2 + 16, i4) == spec_digits(m.brain.speed_factor as int),
        s.subrange(i4, i4 + 18) == key_life(),
        s.subrange(i4 + 18, i6) == spec_digits(m.brain.life_threshold as int),
        s.subrange(i6, i6 + 12) == key_fit(),
        s.subrange(i6 + 12, i8) == spec_digits(m.fitness as int),
        s.len() == i8 + 1,
        s[i8] == 125,
    ensures
        s == spec_encode(m),
{
    assert(s =~= spec_encode(m));
}

/// Where each piece of a canonical encoding sits: the keys and the four
/// digit runs, each digit run followed by a non-digit byte.
proof fn lemma_encode_layout(m: Model)
    requires
        model_valid(m),
    ensures
        ({
            let e = spec_encode(m);
            let d1 = spec_digits(m.brain.food_attraction as int);
            let d2 = spec_digits(m.brain.speed_factor as int);
            let d3 = spec_digits(m.brain.life_threshold as int);
            let d4 = spec_digits(m.fitness as int);
            let o1 = 28int;
            let o2 = o1 + d1.len();
            let o3 = o2 + 16;
            let o4 = o3 + d2.len();
            let o5 = o4 + 18;
            let o6 = o5 + d3.len();
            let o7 = o6 + 12;
            let o8 = o7 + d4.len();
            &&& e.len() == o8 + 1
            &&& e.subrange(0, o1) == key_head()
            &&& digits_at(e, o1, m.brain.food_attraction as int)
            &&& e.subrange(o2, o3) == key_speed()
            &&& digits_at(e, o3, m.brain.speed_factor as int)
            &&& e.subrange(o4, o5) == key_life()
            &&& digits_at(e, o5, m.brain.life_threshold as int)
            &&& e.subrange(o6, o7) == key_fit()
            &&& digits_at(e, o7, m.fitness as int)
            &&& e[o8] == 125
        }),
{
    let e = spec_encode(m);
    let d1 = spec_digits(m.brain.food_attraction as int);
    let d2 = spec_digits(m.brain.speed_factor as int);
    let d3 = spec_digits(m.brain.life_threshold as int);
    let d4 = spec_digits(m.fitness as int);
    lemma_spec_digits_shape(m.brain.food_attraction as int);
    lemma_spec_digits_shape(m.brain.speed_factor as int);
    lemma_spec_digits_shape(m.brain.life_threshold as int);
    lemma_spec_digits_shape(m.fitness as int);
    let o1 = 28int;
    let o2 = o1 + d1.len();
    let o3 = o2 + 16;
    let o4 = o3 + d2.len();
    let o5 = o4 + 18;
    let o6 = o5 + d3.len();
    let o7 = o6 + 12;
    let o8 = o7 + d4.len();
    assert(e.subrange(0, o1) =~= key_head());
    assert(e.subrange(o1, o2) =~= d1);
    assert(e.subrange(o2, o3) =~= key_speed());
    assert(e.subrange(o3, o4) =~= d2);
    assert(e.subrange(o4, o5) =~= key_life());
    assert(e.subrange(o5, o6) =~= d3);
    assert(e.subrange(o6, o7) =~= key_fit());
    assert(e.subrange(o7, o8) =~= d4);
    assert(e[o2] == 44 && e[o4] == 44 && e[o6] == 125 && e[o8] == 125);
}

/// Reads a record back from its canonical byte string. The reader accepts
/// exactly the canonical encodings of persistable records: whatever it
/// returns encodes to the given bytes, and the encoding of any record is
/// read back as that record — the round trip is exact. Anything else is a
/// malformed record and is refused.
#[verifier::rlimit(100)]
pub fn parse_model(s: &Vec<u8>) -> (r: Option<Model>)
    ensures
        r matches Some(m) ==> model_valid(m) && s@ == spec_encode(m),
        forall|m: Model| model_valid(m) && s@ == spec_encode(m) ==> r == Some(m),
{
    let pat_head = key_head_vec();
    let pat_speed = key_speed_vec();
    let pat_life = key_life_vec();
    let pat_fit = key_fit_vec();
    let i1 = match expect(s, 0, &pat_head) {
        Some(j) => j,
        None => {
            proof {
                assert forall|m: Model| model_valid(m) && s@ == spec_encode(m) implies false by {
                    lemma_encode_layout(m);
                }
            }
            return None;
        },
    };
    let fa_i2 = match parse_number(s, i1) {
        Some(p) => p,
        None => {
            proof {
                assert forall|m: Model| model_valid(m) && s@ == spec_encode(m) implies false by {
                    lemma_encode_layout(m);
                }
            }
            return None;
        },
    };
    let fa = fa_i2.0;
    let i2 = fa_i2.1;
    let i3 = match expect(s, i2, &pat_speed) {
        Some(j) => j,
        None => {
            proof {
                assert forall|m: Model| model_valid(m) && s@ == spec_encode(m) implies false by {
                    lemma_encode_layout(m);
                }
            }
            return None;
        },
    };
    let sp_i4 = match parse_number(s, i3) {
        Some(p) => p,
        None => {
            proof {
                assert forall|m: Model| model_valid(m) && s@ == spec_encode(m) implies false by {
                    lemma_encode_layout(m);
                }
            }
            return None;
        },
    };
    let sp = sp_i4.0;
    let i4 = sp_i4.1;
    let i5 = match expect(s, i4, &pat_life) {
        Some(j) => j,
        None => {
            proof {
                assert forall|m: Model| model_valid(m) && s@ == spec_encode(m) implies false by {
                    lemma_encode_layout(m);
                }
            }
            return None;
        },
    };
    let lt_i6 = match parse_number(s, i5) {
        Some(p) => p,
        None => {
            proof {
                assert forall|m: Model| model_valid(m) && s@ == spec_encode(m) implies false by {
                    lemma_encode_layout(m);
                }
            }
            return None;
        },
    };
    let lt = lt_i6.0;
    let i6 = lt_i6.1;
    let i7 = match expect(s, i6, &pat_fit) {
        Some(j) => j,
        None => {
            proof {
                assert forall|m: Model| model_valid(m) && s@ == spec_encode(m) implies false by {
                    lemma_encode_layout(m);
                }
            }
            return None;
        },
    };
    let fit_i8 = match parse_number(s, i7) {
        Some(p) => p,
        None => {
            proof {
                assert forall|m: Model| model_valid(m) && s@ == spec_encode(m) implies false by {
                    lemma_encode_layout(m);
                }
            }
            return None;
        },
    };
    let fit = fit_i8.0;
    let i8 = fit_i8.1;
    if i8 >= s.len() || s[i8] != 125 || i8 + 1 != s.len() {
        proof {
            assert forall|m: Model| model_valid(m) && s@ == spec_encode(m) implies false by {
                lemma_encode_layout(m);
            }
        }
        return None;
    }
    if fa > MICRO || sp < SPEED_MIN_FX || sp > SPEED_MAX_FX || lt > MICRO {
        proof {
            assert forall|m: Model| model_valid(m) && s@ == spec_encode(m) implies false by {
                lemma_encode_layout(m);
            }
        }
        return None;
    }
    let m = Model {
        brain: Brain { food_attraction: fa, speed_factor: sp, life_threshold: lt },
        fitness: fit,
    };
    proof {
        lemma_parse_assembles(s@, m, i2 as int, i4 as int, i6 as int, i8 as int);
        assert forall|m2: Model| model_valid(m2) && s@ == spec_encode(m2) implies Some(m) == Some(
            m2,
        ) by {
            lemma_encode_layout(m2);
        }
    }
    Some(m)
}

/// No two persistable records share an encoding: the encoding determines
/// the record, so a round trip can lose nothing.
pub proof fn lemma_encode_injective(m1: Model, m2: Model)
    requires
        model_valid(m1),
        model_valid(m2),
        spec_encode(m1) == spec_encode(m2),
    ensures
        m1 == m2,
{
    lemma_encode_layout(m1);
    lemma_encode_layout(m2);
    let e = spec_encode(m1);
    lemma_digits_at_unique(
        e,
        28,
        m1.brain.food_attraction as int,
        m2.brain.food_attraction as int,
    );
    let o3 = 28 + spec_digits(m1.brain.food_attraction as int).len() as int + 16;
    lemma_digits_at_unique(e, o3, m1.brain.speed_factor as int, m2.brain.speed_factor as int);
    let o5 = o3 + spec_digits(m1.brain.speed_factor as int).len() as int + 18;
    lemma_digits_at_unique(e, o5, m1.brain.life_threshold as int, m2.brain.life_threshold as int);
    let o7 = o5 + spec_digits(m1.brain.life_threshold as int).len() as int + 12;
    lemma_digits_at_unique(e, o7, m1.fitness as int, m2.fitness as int);
}

} // verus!
