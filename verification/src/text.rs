use vstd::prelude::*;
use crate::ds::Viewport;

verus! {

/// The pieces of `s` between occurrences of `sep`, as `str::split` with a
/// one-byte separator gives them: `n` separators give `n + 1` pieces, empty
/// ones included.
pub open spec fn split_on(s: Seq<u8>, sep: u8) -> Seq<Seq<u8>>
    decreases s.len(),
{
    if s.len() == 0 {
        seq![Seq::<u8>::empty()]
    } else {
        let prev = split_on(s.drop_last(), sep);
        if s.last() == sep {
            prev.push(Seq::<u8>::empty())
        } else {
            prev.update(prev.len() - 1, prev.last().push(s.last()))
        }
    }
}

pub proof fn lemma_split_on_nonempty(s: Seq<u8>, sep: u8)
    ensures
        split_on(s, sep).len() >= 1,
    decreases s.len(),
{
    if s.len() > 0 {
        lemma_split_on_nonempty(s.drop_last(), sep);
    }
}

pub open spec fn is_digit(b: u8) -> bool {
    48 <= b <= 57
}

pub open spec fn all_digits(s: Seq<u8>) -> bool {
    forall|i: int| 0 <= i < s.len() ==> is_digit(#[trigger] s[i])
}

/// The value of a string of decimal digits.
pub open spec fn digits_value(s: Seq<u8>) -> int
    decreases s.len(),
{
    if s.len() == 0 {
        0
    } else {
        digits_value(s.drop_last()) * 10 + (s.last() - 48)
    }
}

/// What `str::parse` gives for an integer type whose values are `min..=max`:
/// an optional `+` (or `-`, where the type has negative values) followed by
/// one or more ASCII digits, whose value lies in the type's range.
pub open spec fn parse_decimal(s: Seq<u8>, min: int, max: int) -> Option<int> {
    let negative = min < 0 && s.len() > 1 && s[0] == 45;
    let digits = if (s.len() > 1 && s[0] == 43) || negative {
        s.skip(1)
    } else {
        s
    };
    let value = if negative {
        -digits_value(digits)
    } else {
        digits_value(digits)
    };
    if s.len() > 0 && all_digits(digits) && min <= value <= max {
        Some(value)
    } else {
        None
    }
}

pub open spec fn parse_i32_spec(s: Seq<u8>) -> Option<i32> {
    match parse_decimal(s, i32::MIN as int, i32::MAX as int) {
        Some(v) => Some(v as i32),
        None => None,
    }
}

pub open spec fn parse_usize_spec(s: Seq<u8>) -> Option<usize> {
    match parse_decimal(s, 0, usize::MAX as int) {
        Some(v) => Some(v as usize),
        None => None,
    }
}

pub open spec fn deep_bytes(v: Seq<Vec<u8>>) -> Seq<Seq<u8>> {
    v.map_values(|f: Vec<u8>| f@)
}

/// Splits `s` at every occurrence of `sep`.
pub fn split_bytes(s: &[u8], sep: u8) -> (r: Vec<Vec<u8>>)
    ensures
        deep_bytes(r@) == split_on(s@, sep),
{
    let mut fields: Vec<Vec<u8>> = Vec::new();
    let mut current: Vec<u8> = Vec::new();
    let mut i: usize = 0;
    while i < s.len()
        invariant
            i <= s.len(),
            deep_bytes(fields@).push(current@) == split_on(s@.take(i as int), sep),
        decreases s.len() - i,
    {
        let b = s[i];
        proof {
            assert(s@.take(i + 1).drop_last() == s@.take(i as int));
            lemma_split_on_nonempty(s@.take(i as int), sep);
        }
        if b == sep {
            let done = current;
            fields.push(done);
            current = Vec::new();
            assert(deep_bytes(fields@).push(current@) == split_on(s@.take(i + 1), sep));
        } else {
            current.push(b);
            assert(deep_bytes(fields@).push(current@) == split_on(s@.take(i + 1), sep));
        }
        i = i + 1;
    }
    assert(s@.take(s@.len() as int) == s@);
    fields.push(current);
    assert(deep_bytes(fields@) == split_on(s@, sep));
    fields
}

proof fn lemma_digits_value_step(s: Seq<u8>, i: int)
    requires
        0 <= i < s.len(),
    ensures
        digits_value(s.take(i + 1)) == digits_value(s.take(i)) * 10 + (s[i] - 48),
{
    assert(s.take(i + 1).drop_last() == s.take(i));
}

proof fn lemma_digits_value_nonneg(s: Seq<u8>)
    requires
        all_digits(s),
    ensures
        digits_value(s) >= 0,
    decreases s.len(),
{
    if s.len() > 0 {
        assert(all_digits(s.drop_last()));
        lemma_digits_value_nonneg(s.drop_last());
    }
}

/// Reads `s` as `str::parse` reads an integer whose type holds `min..=max`.
fn parse_decimal_exec(s: &[u8], min: i128, max: i128) -> (r: Option<i128>)
    requires
        -0x1_0000_0000_0000_0000 <= min <= 0 <= max <= 0x1_0000_0000_0000_0000,
    ensures
        r matches Some(v) ==> parse_decimal(s@, min as int, max as int) == Some(v as int),
        r is None ==> parse_decimal(s@, min as int, max as int) is None,
{
    let n = s.len();
    if n == 0 {
        return None;
    }
    let negative = min < 0 && n > 1 && s[0] == 45;
    let start: usize = if (n > 1 && s[0] == 43) || negative {
        1
    } else {
        0
    };
    let ghost digits = s@.skip(start as int);
    assert(digits == (if (s@.len() > 1 && s@[0] == 43) || negative { s@.skip(1) } else { s@ }));
    let bound: i128 = if negative {
        -min
    } else {
        max
    };
    let mut acc: i128 = 0;
    let mut over = false;
    let mut i = start;
    while i < n
        invariant
            start <= i <= n,
            n == s@.len(),
            digits == s@.skip(start as int),
            digits == (if (s@.len() > 1 && s@[0] == 43) || negative { s@.skip(1) } else { s@ }),
            negative == (min < 0 && s@.len() > 1 && s@[0] == 45),
            n > 0,
            0 <= bound <= 0x1_0000_0000_0000_0000,
            all_digits(digits.take(i - start)),
            0 <= acc <= bound,
            !over ==> acc == digits_value(digits.take(i - start)),
            over ==> digits_value(digits.take(i - start)) > bound,
        decreases n - i,
    {
        let b = s[i];
        if b < 48 || b > 57 {
            assert(!all_digits(digits)) by {
                assert(digits[i - start] == b);
            }
            return None;
        }
        proof {
            lemma_digits_value_step(digits, i - start);
            assert(digits[i - start] == b);
            assert(digits.take(i - start + 1) == digits.take(i - start).push(b));
            lemma_digits_value_nonneg(digits.take(i - start));
        }
        if !over {
            let next = acc * 10 + (b - 48) as i128;
            if next > bound {
                over = true;
            } else {
                acc = next;
            }
        }
        i = i + 1;
    }
    assert(digits.take(n - start) == digits);
    if over {
        return None;
    }
    let value = if negative {
        -acc
    } else {
        acc
    };
    if min <= value && value <= max {
        Some(value)
    } else {
        None
    }
}

/// `str::parse::<i32>` on the bytes `s`.
pub fn parse_i32(s: &[u8]) -> (r: Option<i32>)
    ensures
        r == parse_i32_spec(s@),
{
    match parse_decimal_exec(s, -2147483648, 2147483647) {
        Some(v) => Some(v as i32),
        None => None,
    }
}

/// `str::parse::<usize>` on the bytes `s`.
pub fn parse_usize(s: &[u8]) -> (r: Option<usize>)
    ensures
        r == parse_usize_spec(s@),
{
    match parse_decimal_exec(s, 0, usize::MAX as i128) {
        Some(v) => Some(v as usize),
        None => None,
    }
}

/// The bytes of a line of text, as UTF-8.
pub open spec fn line_bytes(line: Seq<char>) -> Seq<u8> {
    vstd::utf8::encode_utf8(line)
}

/// One line of the trace dump: `frame object x,y,width,height`.
#[derive(Debug, Clone, Copy)]
pub struct TraceRecord {
    pub frame_id: i32,
    pub object_id: i32,
    pub x: i32,
    pub y: i32,
    pub width: usize,
    pub height: usize,
}

/// The record on a line of the trace dump: the line split at spaces gives at
/// least three fields, the third split at commas at least four; the first two
/// fields and the first two coordinates read as `i32`, the last two
/// coordinates as `usize`.  Further fields are ignored.
pub open spec fn trace_record(line: Seq<u8>) -> Option<TraceRecord> {
    let f = split_on(line, 32);
    if f.len() < 3 {
        None
    } else {
        let c = split_on(f[2], 44);
        if c.len() < 4 {
            None
        } else {
            match (
                parse_i32_spec(f[0]),
                parse_i32_spec(f[1]),
                parse_i32_spec(c[0]),
                parse_i32_spec(c[1]),
                parse_usize_spec(c[2]),
                parse_usize_spec(c[3]),
            ) {
                (Some(frame_id), Some(object_id), Some(x), Some(y), Some(width), Some(height)) => {
                    Some(TraceRecord { frame_id, object_id, x, y, width, height })
                },
                _ => None,
            }
        }
    }
}

/// The viewport on a line of the user's viewport file:
/// `key conf x,y,width,height`, where `key` reads as `usize` and is not kept,
/// `conf`, `x` and `y` read as `i32` and `width` and `height` as `usize`.
pub open spec fn user_viewport(line: Seq<u8>) -> Option<Viewport> {
    let f = split_on(line, 32);
    if f.len() < 3 {
        None
    } else {
        let c = split_on(f[2], 44);
        if c.len() < 4 {
            None
        } else {
            match (
                parse_usize_spec(f[0]),
                parse_i32_spec(f[1]),
                parse_i32_spec(c[0]),
                parse_i32_spec(c[1]),
                parse_usize_spec(c[2]),
                parse_usize_spec(c[3]),
            ) {
                (Some(_key), Some(conf), Some(x), Some(y), Some(width), Some(height)) => {
                    Some(Viewport { conf, x, y, width, height })
                },
                _ => None,
            }
        }
    }
}

/// Reads a line of the trace dump; `None` where reading it would fail.
pub fn parse_trace_line(line: &str) -> (r: Option<TraceRecord>)
    ensures
        r == trace_record(line_bytes(line@)),
{
    let bytes = line.as_bytes();
    let fields = split_bytes(bytes, 32);
    proof {
        assert(deep_bytes(fields@).len() == fields@.len());
    }
    if fields.len() < 3 {
        return None;
    }
    let coord = split_bytes(fields[2].as_slice(), 44);
    proof {
        assert(deep_bytes(coord@).len() == coord@.len());
        assert(deep_bytes(fields@)[0] == fields@[0]@);
        assert(deep_bytes(fields@)[1] == fields@[1]@);
        assert(deep_bytes(fields@)[2] == fields@[2]@);
    }
    if coord.len() < 4 {
        return None;
    }
    proof {
        assert(deep_bytes(coord@)[0] == coord@[0]@);
        assert(deep_bytes(coord@)[1] == coord@[1]@);
        assert(deep_bytes(coord@)[2] == coord@[2]@);
        assert(deep_bytes(coord@)[3] == coord@[3]@);
    }
    let frame_id = parse_i32(fields[0].as_slice());
    let object_id = parse_i32(fields[1].as_slice());
    let x = parse_i32(coord[0].as_slice());
    let y = parse_i32(coord[1].as_slice());
    let width = parse_usize(coord[2].as_slice());
    let height = parse_usize(coord[3].as_slice());
    match (frame_id, object_id, x, y, width, height) {
        (Some(frame_id), Some(object_id), Some(x), Some(y), Some(width), Some(height)) => {
            Some(TraceRecord { frame_id, object_id, x, y, width, height })
        },
        _ => None,
    }
}

/// Reads a line of the user's viewport file into a viewport; `None` where
/// reading it would fail.
pub fn parse_user_line(line: &str) -> (r: Option<Viewport>)
    ensures
        r == user_viewport(line_bytes(line@)),
{
    let bytes = line.as_bytes();
    let fields = split_bytes(bytes, 32);
    proof {
        assert(deep_bytes(fields@).len() == fields@.len());
    }
    if fields.len() < 3 {
        return None;
    }
    let coord = split_bytes(fields[2].as_slice(), 44);
    proof {
        assert(deep_bytes(coord@).len() == coord@.len());
        assert(deep_bytes(fields@)[0] == fields@[0]@);
        assert(deep_bytes(fields@)[1] == fields@[1]@);
        assert(deep_bytes(fields@)[2] == fields@[2]@);
    }
    if coord.len() < 4 {
        return None;
    }
    proof {
        assert(deep_bytes(coord@)[0] == coord@[0]@);
        assert(deep_bytes(coord@)[1] == coord@[1]@);
        assert(deep_bytes(coord@)[2] == coord@[2]@);
        assert(deep_bytes(coord@)[3] == coord@[3]@);
    }
    let key = parse_usize(fields[0].as_slice());
    let conf = parse_i32(fields[1].as_slice());
    let x = parse_i32(coord[0].as_slice());
    let y = parse_i32(coord[1].as_slice());
    let width = parse_usize(coord[2].as_slice());
    let height = parse_usize(coord[3].as_slice());
    match (key, conf, x, y, width, height) {
        (Some(_key), Some(conf), Some(x), Some(y), Some(width), Some(height)) => {
            Some(Viewport::new(conf, x, y, width, height))
        },
        _ => None,
    }
}

/// The decimal digits of `n`, most significant first, with no leading zero.
pub open spec fn decimal(n: nat) -> Seq<u8>
    decreases n,
{
    if n < 10 {
        seq![(48 + n) as u8]
    } else {
        decimal(n / 10).push((48 + n % 10) as u8)
    }
}

/// `i` written in decimal, with a leading `-` where it is negative.
pub open spec fn signed_decimal(i: int) -> Seq<u8> {
    if i < 0 {
        seq![45u8] + decimal((-i) as nat)
    } else {
        decimal(i as nat)
    }
}

proof fn lemma_decimal(n: nat)
    ensures
        decimal(n).len() > 0,
        all_digits(decimal(n)),
        digits_value(decimal(n)) == n,
    decreases n,
{
    if n < 10 {
        assert(decimal(n).drop_last() =~= Seq::<u8>::empty());
        assert(((48 + n) as u8) as int == 48 + n);
        assert(digits_value(decimal(n)) == digits_value(decimal(n).drop_last()) * 10 + (decimal(
            n,
        ).last() - 48));
    } else {
        lemma_decimal(n / 10);
        let d = decimal(n / 10);
        assert(decimal(n).drop_last() == d);
        assert(n % 10 < 10);
        assert(((48 + n % 10) as u8) as int == 48 + n % 10);
        assert(decimal(n).last() == (48 + n % 10) as u8);
        assert(n == (n / 10) * 10 + n % 10);
        assert(digits_value(decimal(n)) == digits_value(d) * 10 + (decimal(n).last() - 48));
        assert forall|i: int| 0 <= i < decimal(n).len() implies is_digit(#[trigger] decimal(n)[i]) by {
            if i < d.len() {
                assert(decimal(n)[i] == d[i]);
            }
        }
    }
}

proof fn lemma_signed_decimal(i: int)
    ensures
        signed_decimal(i).len() > 0,
        forall|k: int|
            0 <= k < signed_decimal(i).len() ==> is_digit(#[trigger] signed_decimal(i)[k])
                || signed_decimal(i)[k] == 45,
        i >= 0 ==> all_digits(signed_decimal(i)),
{
    if i < 0 {
        lemma_decimal((-i) as nat);
        let d = decimal((-i) as nat);
        assert forall|k: int| 0 <= k < signed_decimal(i).len() implies is_digit(
            #[trigger] signed_decimal(i)[k],
        ) || signed_decimal(i)[k] == 45 by {
            if k > 0 {
                assert(signed_decimal(i)[k] == d[k - 1]);
            }
        }
    } else {
        lemma_decimal(i as nat);
    }
}

proof fn lemma_parse_signed_decimal(i: int, min: int, max: int)
    requires
        min <= i <= max,
    ensures
        parse_decimal(signed_decimal(i), min, max) == Some(i),
{
    lemma_signed_decimal(i);
    let s = signed_decimal(i);
    if i < 0 {
        lemma_decimal((-i) as nat);
        assert(s.skip(1) =~= decimal((-i) as nat));
        assert(s[0] == 45);
    } else {
        lemma_decimal(i as nat);
        assert(is_digit(s[0]));
    }
}

proof fn lemma_split_on_without_sep(a: Seq<u8>, sep: u8)
    requires
        forall|i: int| 0 <= i < a.len() ==> #[trigger] a[i] != sep,
    ensures
        split_on(a, sep) == seq![a],
    decreases a.len(),
{
    if a.len() > 0 {
        assert(a[a.len() - 1] != sep);
        assert forall|i: int| 0 <= i < a.drop_last().len() implies #[trigger] a.drop_last()[i] != sep by {
            assert(a.drop_last()[i] == a[i]);
        }
        lemma_split_on_without_sep(a.drop_last(), sep);
        let prev = split_on(a.drop_last(), sep);
        assert(prev.len() == 1 && prev.last() == a.drop_last());
        assert(split_on(a, sep) == prev.update(0, prev.last().push(a.last())));
        assert(a.drop_last().push(a.last()) =~= a);
        assert(seq![a.drop_last()].update(0, a.drop_last().push(a.last())) =~= seq![a]);
    } else {
        assert(a =~= Seq::<u8>::empty());
    }
}

/// Splitting a text joined at a separator gives the pieces of each side.
pub proof fn lemma_split_on_join(a: Seq<u8>, sep: u8, b: Seq<u8>)
    ensures
        split_on(a + seq![sep] + b, sep) == split_on(a, sep) + split_on(b, sep),
    decreases b.len(),
{
    if b.len() == 0 {
        assert(a + seq![sep] + b =~= a.push(sep));
        assert((a.push(sep)).drop_last() =~= a);
        assert(split_on(a, sep).push(Seq::<u8>::empty()) =~= split_on(a, sep) + split_on(b, sep));
    } else {
        let b0 = b.drop_last();
        lemma_split_on_join(a, sep, b0);
        lemma_split_on_nonempty(b0, sep);
        let whole = a + seq![sep] + b;
        assert(whole.drop_last() =~= a + seq![sep] + b0);
        assert(whole.last() == b.last());
        let left = split_on(a, sep);
        let right = split_on(b0, sep);
        if b.last() == sep {
            assert((left + right).push(Seq::<u8>::empty()) =~= left + right.push(Seq::<u8>::empty()));
        } else {
            let lr = left + right;
            assert(lr.update(lr.len() - 1, lr.last().push(b.last())) =~= left + right.update(
                right.len() - 1,
                right.last().push(b.last()),
            ));
        }
    }
}

/// The text of a user viewport line: `key conf x,y,width,height`.
pub open spec fn user_line_text(key: nat, conf: int, x: int, y: int, width: nat, height: nat) -> Seq<
    u8,
> {
    decimal(key) + seq![32u8] + signed_decimal(conf) + seq![32u8] + signed_decimal(x) + seq![44u8]
        + signed_decimal(y) + seq![44u8] + decimal(width) + seq![44u8] + decimal(height)
}

/// The text of a trace dump line: `frame object x,y,width,height`.
pub open spec fn trace_line_text(
    frame_id: int,
    object_id: int,
    x: int,
    y: int,
    width: nat,
    height: nat,
) -> Seq<u8> {
    signed_decimal(frame_id) + seq![32u8] + signed_decimal(object_id) + seq![32u8] + signed_decimal(x)
        + seq![44u8] + signed_decimal(y) + seq![44u8] + decimal(width) + seq![44u8] + decimal(height)
}

proof fn lemma_coordinates_split(x: int, y: int, width: nat, height: nat)
    ensures
        ({
            let c = signed_decimal(x) + seq![44u8] + signed_decimal(y) + seq![44u8] + decimal(width)
                + seq![44u8] + decimal(height);
            &&& split_on(c, 44) == seq![
                signed_decimal(x),
                signed_decimal(y),
                decimal(width),
                decimal(height),
            ]
            &&& forall|k: int| 0 <= k < c.len() ==> #[trigger] c[k] != 32
        }),
{
    lemma_signed_decimal(x);
    lemma_signed_decimal(y);
    lemma_signed_decimal(width as int);
    lemma_signed_decimal(height as int);
    let (sx, sy, sw, sh) = (signed_decimal(x), signed_decimal(y), decimal(width), decimal(height));
    assert(signed_decimal(width as int) == sw);
    assert(signed_decimal(height as int) == sh);
    lemma_split_on_without_sep(sx, 44);
    lemma_split_on_without_sep(sy, 44);
    lemma_split_on_without_sep(sw, 44);
    lemma_split_on_without_sep(sh, 44);
    let c3 = sw + seq![44u8] + sh;
    let c2 = sy + seq![44u8] + c3;
    let c1 = sx + seq![44u8] + c2;
    let c = sx + seq![44u8] + sy + seq![44u8] + sw + seq![44u8] + sh;
    assert(c =~= c1);
    lemma_split_on_join(sw, 44, sh);
    lemma_split_on_join(sy, 44, c3);
    lemma_split_on_join(sx, 44, c2);
    assert(split_on(c1, 44) =~= seq![sx, sy, sw, sh]);
    assert forall|k: int| 0 <= k < c.len() implies #[trigger] c[k] != 32 by {
        if k < sx.len() {
            assert(c[k] == sx[k]);
        } else if k == sx.len() {
        } else if k < sx.len() + 1 + sy.len() {
            assert(c[k] == sy[k - sx.len() - 1]);
        } else if k == sx.len() + 1 + sy.len() {
        } else if k < sx.len() + 2 + sy.len() + sw.len() {
            assert(c[k] == sw[k - sx.len() - 2 - sy.len()]);
        } else if k == sx.len() + 2 + sy.len() + sw.len() {
        } else {
            assert(c[k] == sh[k - sx.len() - 3 - sy.len() - sw.len()]);
        }
    }
}

proof fn lemma_line_split(a: Seq<u8>, b: Seq<u8>, c: Seq<u8>)
    requires
        forall|k: int| 0 <= k < a.len() ==> #[trigger] a[k] != 32,
        forall|k: int| 0 <= k < b.len() ==> #[trigger] b[k] != 32,
        forall|k: int| 0 <= k < c.len() ==> #[trigger] c[k] != 32,
    ensures
        split_on(a + seq![32u8] + b + seq![32u8] + c, 32) == seq![a, b, c],
{
    lemma_split_on_without_sep(a, 32);
    lemma_split_on_without_sep(b, 32);
    lemma_split_on_without_sep(c, 32);
    let rest = b + seq![32u8] + c;
    assert(a + seq![32u8] + b + seq![32u8] + c =~= a + seq![32u8] + rest);
    lemma_split_on_join(b, 32, c);
    lemma_split_on_join(a, 32, rest);
    assert(split_on(a + seq![32u8] + rest, 32) =~= seq![a, b, c]);
}

proof fn lemma_no_space(i: int)
    ensures
        forall|k: int| 0 <= k < signed_decimal(i).len() ==> #[trigger] signed_decimal(i)[k] != 32,
{
    lemma_signed_decimal(i);
}

/// Reading a user viewport line written as `key conf x,y,width,height` gives
/// the viewport with that confidence, position and size: the width is the
/// third number after the second space and the height the fourth.
pub proof fn lemma_user_line_round_trip(
    key: usize,
    conf: i32,
    x: i32,
    y: i32,
    width: usize,
    height: usize,
)
    ensures
        user_viewport(
            user_line_text(key as nat, conf as int, x as int, y as int, width as nat, height as nat),
        ) == Some(Viewport { conf, x, y, width, height }),
{
    let c = signed_decimal(x as int) + seq![44u8] + signed_decimal(y as int) + seq![44u8] + decimal(
        width as nat,
    ) + seq![44u8] + decimal(height as nat);
    lemma_coordinates_split(x as int, y as int, width as nat, height as nat);
    lemma_no_space(key as int);
    lemma_no_space(conf as int);
    assert(signed_decimal(key as int) == decimal(key as nat));
    let line = user_line_text(key as nat, conf as int, x as int, y as int, width as nat, height as nat);
    assert(line =~= decimal(key as nat) + seq![32u8] + signed_decimal(conf as int) + seq![32u8] + c);
    lemma_line_split(decimal(key as nat), signed_decimal(conf as int), c);
    lemma_parse_signed_decimal(key as int, 0, usize::MAX as int);
    lemma_parse_signed_decimal(conf as int, i32::MIN as int, i32::MAX as int);
    lemma_parse_signed_decimal(x as int, i32::MIN as int, i32::MAX as int);
    lemma_parse_signed_decimal(y as int, i32::MIN as int, i32::MAX as int);
    lemma_parse_signed_decimal(width as int, 0, usize::MAX as int);
    lemma_parse_signed_decimal(height as int, 0, usize::MAX as int);
    assert(signed_decimal(width as int) == decimal(width as nat));
    assert(signed_decimal(height as int) == decimal(height as nat));
}

/// Reading a trace dump line written as `frame object x,y,width,height`
/// gives the record with those numbers: the width is the third number after
/// the second space and the height the fourth.
pub proof fn lemma_trace_line_round_trip(
    frame_id: i32,
    object_id: i32,
    x: i32,
    y: i32,
    width: usize,
    height: usize,
)
    ensures
        trace_record(
            trace_line_text(
                frame_id as int,
                object_id as int,
                x as int,
                y as int,
                width as nat,
                height as nat,
            ),
        ) == Some(TraceRecord { frame_id, object_id, x, y, width, height }),
{
    let c = signed_decimal(x as int) + seq![44u8] + signed_decimal(y as int) + seq![44u8] + decimal(
        width as nat,
    ) + seq![44u8] + decimal(height as nat);
    lemma_coordinates_split(x as int, y as int, width as nat, height as nat);
    lemma_no_space(frame_id as int);
    lemma_no_space(object_id as int);
    let line = trace_line_text(
        frame_id as int,
        object_id as int,
        x as int,
        y as int,
        width as nat,
        height as nat,
    );
    assert(line =~= signed_decimal(frame_id as int) + seq![32u8] + signed_decimal(object_id as int)
        + seq![32u8] + c);
    lemma_line_split(signed_decimal(frame_id as int), signed_decimal(object_id as int), c);
    lemma_parse_signed_decimal(frame_id as int, i32::MIN as int, i32::MAX as int);
    lemma_parse_signed_decimal(object_id as int, i32::MIN as int, i32::MAX as int);
    lemma_parse_signed_decimal(x as int, i32::MIN as int, i32::MAX as int);
    lemma_parse_signed_decimal(y as int, i32::MIN as int, i32::MAX as int);
    lemma_parse_signed_decimal(width as int, 0, usize::MAX as int);
    lemma_parse_signed_decimal(height as int, 0, usize::MAX as int);
    assert(signed_decimal(width as int) == decimal(width as nat));
    assert(signed_decimal(height as int) == decimal(height as nat));
}

} // verus!
