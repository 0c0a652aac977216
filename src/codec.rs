use vstd::prelude::*;
use vstd::string::*;
use vstd::utf8::*;

verus! {

/// Longest base-128 integer the decoder accepts, in bytes.
pub const MAX_VARINT_LEN: usize = 10;

/// Base-128 encoding of `v`, low group first, high bit set on every byte but the last.
pub open spec fn varint_bytes(v: nat) -> Seq<u8>
    decreases v,
{
    if v < 128 {
        seq![v as u8]
    } else {
        seq![(v % 128 + 128) as u8] + varint_bytes(v / 128)
    }
}

/// Reads a base-128 integer from the front of `b`, using at most `fuel` bytes:
/// the value and the number of bytes it took. Values past 64 bits are refused.
pub open spec fn varint_value(b: Seq<u8>, fuel: nat) -> Option<(nat, nat)>
    decreases fuel,
{
    if fuel == 0 || b.len() == 0 {
        None
    } else if b[0] < 128 {
        Some((b[0] as nat, 1))
    } else {
        match varint_value(b.drop_first(), (fuel - 1) as nat) {
            Some((v, n)) => if (b[0] - 128) as nat + 128 * v <= u64::MAX {
                Some(((b[0] - 128) as nat + 128 * v, n + 1))
            } else {
                None
            },
            None => None,
        }
    }
}

pub proof fn lemma_varint_len(b: Seq<u8>, fuel: nat)
    ensures
        varint_value(b, fuel) matches Some((v, n)) ==> 1 <= n <= b.len() && n <= fuel && v
            <= u64::MAX,
    decreases fuel,
{
    if fuel > 0 && b.len() > 0 && b[0] >= 128 {
        lemma_varint_len(b.drop_first(), (fuel - 1) as nat);
    }
}

pub proof fn lemma_varint_bytes_len(v: nat, k: nat)
    requires
        v < pow128(k),
        k >= 1,
    ensures
        varint_bytes(v).len() <= k,
    decreases v,
{
    if v >= 128 {
        if k == 1 {
            assert(pow128(1) == 128 * pow128(0));
        }
        assert(pow128(k) == 128 * pow128((k - 1) as nat));
        assert(v / 128 < pow128((k - 1) as nat));
        lemma_varint_bytes_len(v / 128, (k - 1) as nat);
    }
}

pub open spec fn pow128(k: nat) -> nat
    decreases k,
{
    if k == 0 {
        1
    } else {
        128 * pow128((k - 1) as nat)
    }
}

/// What follows an encoded integer is left for the next reader.
pub proof fn lemma_varint_round_trip(v: nat, rest: Seq<u8>, fuel: nat)
    requires
        varint_bytes(v).len() <= fuel,
        v <= u64::MAX,
    ensures
        varint_value(varint_bytes(v) + rest, fuel) == Some((v, varint_bytes(v).len())),
    decreases v,
{
    let b = varint_bytes(v) + rest;
    if v >= 128 {
        assert(b.drop_first() =~= varint_bytes(v / 128) + rest);
        lemma_varint_round_trip(v / 128, rest, (fuel - 1) as nat);
    }
}

/// Reads the base-128 integer that starts at `pos`.
pub fn read_varint(b: &[u8], pos: usize, fuel: usize) -> (r: Option<(u64, usize)>)
    requires
        pos <= b@.len(),
    ensures
        match varint_value(b@.skip(pos as int), fuel as nat) {
            None => r is None,
            Some((v, n)) => r == Some((v as u64, (pos + n) as usize)),
        },
    decreases fuel,
{
    proof {
        lemma_varint_len(b@.skip(pos as int), fuel as nat);
    }
    if fuel == 0 || pos == b.len() {
        return None;
    }
    let first = b[pos];
    if first < 128 {
        return Some((first as u64, pos + 1));
    }
    assert(b@.skip(pos as int).drop_first() =~= b@.skip(pos + 1));
    match read_varint(b, pos + 1, fuel - 1) {
        None => None,
        Some((v, end)) => {
            let low = (first - 128) as u64;
            if v > (u64::MAX - low) / 128 {
                None
            } else {
                Some((low + 128 * v, end))
            }
        },
    }
}

/// Appends the base-128 encoding of `v` to `out`.
pub fn write_varint(out: &mut Vec<u8>, v: u64)
    ensures
        final(out)@ == old(out)@ + varint_bytes(v as nat),
{
    let mut rest: u64 = v;
    while rest >= 128
        invariant
            out@ + varint_bytes(rest as nat) == old(out)@ + varint_bytes(v as nat),
        decreases rest,
    {
        let ghost before = out@;
        out.push((rest % 128 + 128) as u8);
        assert(before + varint_bytes(rest as nat) =~= out@ + varint_bytes((rest / 128) as nat));
        rest = rest / 128;
    }
    out.push(rest as u8);
    assert(out@ =~= old(out)@ + varint_bytes(v as nat));
}

/// The four bytes of `v`, least significant first.
pub open spec fn le_bytes(v: u32) -> Seq<u8> {
    seq![
        (v % 256) as u8,
        ((v / 256) % 256) as u8,
        ((v / 256 / 256) % 256) as u8,
        (v / 256 / 256 / 256) as u8,
    ]
}

/// The value of the four bytes at the front of `b`, least significant first.
pub open spec fn le_value(b: Seq<u8>) -> u32 {
    (b[0] as int + 256 * (b[1] as int) + 65536 * (b[2] as int) + 16777216 * (b[3] as int)) as u32
}

/// The bytes of each value in turn.
pub open spec fn values_bytes(vals: Seq<u32>) -> Seq<u8>
    decreases vals.len(),
{
    if vals.len() == 0 {
        seq![]
    } else {
        values_bytes(vals.drop_last()) + le_bytes(vals.last())
    }
}

/// The values packed in `b`, four bytes each.
pub open spec fn values_of(b: Seq<u8>) -> Seq<u32> {
    Seq::new(b.len() / 4, |i: int| le_value(b.subrange(4 * i, 4 * i + 4)))
}

pub proof fn lemma_le_round_trip(v: u32)
    ensures
        le_value(le_bytes(v)) == v,
{
}

pub proof fn lemma_values_bytes_len(vals: Seq<u32>)
    ensures
        values_bytes(vals).len() == 4 * vals.len(),
    decreases vals.len(),
{
    if vals.len() > 0 {
        lemma_values_bytes_len(vals.drop_last());
    }
}

pub proof fn lemma_values_round_trip(vals: Seq<u32>)
    ensures
        values_of(values_bytes(vals)) == vals,
    decreases vals.len(),
{
    lemma_values_bytes_len(vals);
    if vals.len() > 0 {
        let init = vals.drop_last();
        lemma_values_round_trip(init);
        lemma_values_bytes_len(init);
        let b = values_bytes(vals);
        let a = values_bytes(init);
        assert forall|i: int| 0 <= i < vals.len() implies values_of(b)[i] == vals[i] by {
            if i < init.len() {
                assert(b.subrange(4 * i, 4 * i + 4) =~= a.subrange(4 * i, 4 * i + 4));
                assert(values_of(a)[i] == init[i]);
            } else {
                assert(b.subrange(4 * i, 4 * i + 4) =~= le_bytes(vals.last()));
                lemma_le_round_trip(vals.last());
            }
        }
        assert(values_of(b) =~= vals);
    }
}

/// Field numbers of the frame schema.
pub const UNIT_FIELD: u64 = 1;
pub const VALUES_FIELD: u64 = 2;
pub const TIME_FIELD: u64 = 3;

/// Wire types: a base-128 integer, eight bytes, a length-prefixed run, four bytes.
pub const WIRE_VARINT: u64 = 0;
pub const WIRE_FIXED64: u64 = 1;
pub const WIRE_LEN: u64 = 2;
pub const WIRE_FIXED32: u64 = 5;

/// The fields of a frame as read so far: the unit's bytes, the values, the time.
pub struct FrameModel {
    pub unit: Seq<u8>,
    pub values: Seq<u32>,
    pub time_us: u64,
}

pub open spec fn empty_model() -> FrameModel {
    FrameModel { unit: seq![], values: seq![], time_us: 0 }
}

/// One field's body, which starts at the front of `rest`: the number of bytes
/// it takes and the fields after reading it. Later fields replace the unit and
/// the time; values accumulate. Unknown fields are skipped.
pub open spec fn field_step(rest: Seq<u8>, num: nat, wt: nat, f: FrameModel) -> Option<(nat, FrameModel)> {
    if num == 0 {
        None
    } else if wt == WIRE_VARINT {
        match varint_value(rest, MAX_VARINT_LEN as nat) {
            None => None,
            Some((v, m)) => if num == TIME_FIELD {
                Some((m, FrameModel { time_us: v as u64, ..f }))
            } else if num == UNIT_FIELD || num == VALUES_FIELD {
                None
            } else {
                Some((m, f))
            },
        }
    } else if wt == WIRE_LEN {
        match varint_value(rest, MAX_VARINT_LEN as nat) {
            None => None,
            Some((len, m)) => if m + len > rest.len() {
                None
            } else {
                let payload = rest.subrange(m as int, (m + len) as int);
                if num == UNIT_FIELD {
                    Some((m + len, FrameModel { unit: payload, ..f }))
                } else if num == VALUES_FIELD {
                    if len % 4 == 0 {
                        Some((m + len, FrameModel { values: f.values + values_of(payload), ..f }))
                    } else {
                        None
                    }
                } else if num == TIME_FIELD {
                    None
                } else {
                    Some((m + len, f))
                }
            },
        }
    } else if wt == WIRE_FIXED32 {
        if rest.len() < 4 || num == UNIT_FIELD || num == TIME_FIELD {
            None
        } else if num == VALUES_FIELD {
            Some((4, FrameModel { values: f.values.push(le_value(rest)), ..f }))
        } else {
            Some((4, f))
        }
    } else if wt == WIRE_FIXED64 {
        if rest.len() < 8 || num <= TIME_FIELD {
            None
        } else {
            Some((8, f))
        }
    } else {
        None
    }
}

/// Reads the fields of `b` one after another, starting from `f`.
pub open spec fn parse_fields(b: Seq<u8>, f: FrameModel) -> Option<FrameModel>
    decreases b.len(),
{
    if b.len() == 0 {
        Some(f)
    } else {
        match varint_value(b, MAX_VARINT_LEN as nat) {
            None => None,
            Some((key, n)) => {
                let rest = b.skip(n as int);
                match field_step(rest, key / 8, key % 8, f) {
                    None => None,
                    Some((used, g)) => if 1 <= n && n + used <= b.len() {
                        parse_fields(rest.skip(used as int), g)
                    } else {
                        None
                    },
                }
            },
        }
    }
}

pub open spec fn model_of(unit: Seq<u8>, values: Seq<u32>, time_us: u64) -> FrameModel {
    FrameModel { unit, values, time_us }
}

/// A copy of `b[start..end]`.
fn copy_range(b: &[u8], start: usize, end: usize) -> (r: Vec<u8>)
    requires
        start <= end <= b@.len(),
    ensures
        r@ == b@.subrange(start as int, end as int),
{
    let mut r: Vec<u8> = Vec::new();
    let mut i: usize = start;
    while i < end
        invariant
            start <= i <= end <= b@.len(),
            r@ == b@.subrange(start as int, i as int),
        decreases end - i,
    {
        r.push(b[i]);
        i = i + 1;
        assert(r@ =~= b@.subrange(start as int, i as int));
    }
    r
}

/// The value of the four bytes at `pos`, least significant first.
fn read_le(b: &[u8], pos: usize) -> (r: u32)
    requires
        pos + 4 <= b@.len(),
    ensures
        r == le_value(b@.skip(pos as int)),
        r == le_value(b@.subrange(pos as int, pos + 4)),
{
    b[pos] as u32 + 256 * (b[pos + 1] as u32) + 65536 * (b[pos + 2] as u32) + 16777216 * (
    b[pos + 3] as u32)
}

/// Appends the values packed in `b[start..end]`.
fn append_values(b: &[u8], start: usize, end: usize, values: &mut Vec<u32>)
    requires
        start <= end <= b@.len(),
        (end - start) % 4 == 0,
    ensures
        final(values)@ == old(values)@ + values_of(b@.subrange(start as int, end as int)),
{
    let ghost payload = b@.subrange(start as int, end as int);
    let count: usize = (end - start) / 4;
    let mut i: usize = 0;
    while i < count
        invariant
            count == (end - start) / 4,
            (end - start) % 4 == 0,
            start <= end <= b@.len(),
            payload == b@.subrange(start as int, end as int),
            i <= count,
            values@ == old(values)@ + values_of(payload).take(i as int),
        decreases count - i,
    {
        let v = read_le(b, start + 4 * i);
        assert(payload.subrange(4 * i, 4 * i + 4) =~= b@.subrange(start + 4 * i, start + 4 * i + 4));
        values.push(v);
        i = i + 1;
        assert(values@ =~= old(values)@ + values_of(payload).take(i as int));
    }
    assert(values_of(payload).take(count as int) =~= values_of(payload));
}

/// Reads the body of one field, which starts at `at`, into the fields so far,
/// as `field_step` gives it: where the next field starts.
fn read_field(
    b: &[u8],
    at: usize,
    num: u64,
    wt: u64,
    unit: &mut Vec<u8>,
    values: &mut Vec<u32>,
    time_us: &mut u64,
) -> (r: Option<usize>)
    requires
        at <= b@.len(),
    ensures
        match field_step(
            b@.skip(at as int),
            num as nat,
            wt as nat,
            model_of(old(unit)@, old(values)@, *old(time_us)),
        ) {
            None => r is None,
            Some((used, g)) => r == Some((at + used) as usize) && at + used <= b@.len()
                && model_of(final(unit)@, final(values)@, *final(time_us)) == g,
        },
{
    let ghost rest = b@.skip(at as int);
    if num == 0 {
        return None;
    }
    if wt == WIRE_VARINT {
        let (v, end) = match read_varint(b, at, MAX_VARINT_LEN) {
            None => return None,
            Some(x) => x,
        };
        proof {
            lemma_varint_len(rest, MAX_VARINT_LEN as nat);
        }
        if num == TIME_FIELD {
            *time_us = v;
        } else if num == UNIT_FIELD || num == VALUES_FIELD {
            return None;
        }
        Some(end)
    } else if wt == WIRE_LEN {
        let (len, start) = match read_varint(b, at, MAX_VARINT_LEN) {
            None => return None,
            Some(x) => x,
        };
        proof {
            lemma_varint_len(rest, MAX_VARINT_LEN as nat);
        }
        if len > (b.len() - start) as u64 {
            return None;
        }
        let end = start + len as usize;
        assert(rest.subrange(start - at, end - at) =~= b@.subrange(start as int, end as int));
        if num == UNIT_FIELD {
            *unit = copy_range(b, start, end);
        } else if num == VALUES_FIELD {
            if len % 4 != 0 {
                return None;
            }
            append_values(b, start, end, values);
        } else if num == TIME_FIELD {
            return None;
        }
        Some(end)
    } else if wt == WIRE_FIXED32 {
        if b.len() - at < 4 || num == UNIT_FIELD || num == TIME_FIELD {
            return None;
        }
        if num == VALUES_FIELD {
            let v = read_le(b, at);
            values.push(v);
        }
        Some(at + 4)
    } else if wt == WIRE_FIXED64 {
        if b.len() - at < 8 || num <= TIME_FIELD {
            return None;
        }
        Some(at + 8)
    } else {
        None
    }
}

/// Reads the fields of `b`: the unit's bytes, the values and the time, as
/// `parse_fields` gives them; `None` where `b` is not a well-formed frame.
pub fn parse_frame(b: &[u8]) -> (r: Option<(Vec<u8>, Vec<u32>, u64)>)
    ensures
        match parse_fields(b@, empty_model()) {
            None => r is None,
            Some(f) => r matches Some((u, v, t)) && model_of(u@, v@, t) == f,
        },
{
    let mut unit: Vec<u8> = Vec::new();
    let mut values: Vec<u32> = Vec::new();
    let mut time_us: u64 = 0;
    let mut pos: usize = 0;
    assert(b@.skip(0) =~= b@);
    assert(model_of(unit@, values@, time_us) =~= empty_model());
    while pos < b.len()
        invariant
            pos <= b@.len(),
            parse_fields(b@.skip(pos as int), model_of(unit@, values@, time_us)) == parse_fields(
                b@,
                empty_model(),
            ),
        decreases b@.len() - pos,
    {
        let ghost here = b@.skip(pos as int);
        let (key, after_key) = match read_varint(b, pos, MAX_VARINT_LEN) {
            None => return None,
            Some(x) => x,
        };
        proof {
            lemma_varint_len(here, MAX_VARINT_LEN as nat);
            assert(here.skip(after_key - pos) =~= b@.skip(after_key as int));
        }
        let next = match read_field(
            b,
            after_key,
            key / 8,
            key % 8,
            &mut unit,
            &mut values,
            &mut time_us,
        ) {
            None => return None,
            Some(n) => n,
        };
        proof {
            assert(b@.skip(after_key as int).skip(next - after_key) =~= b@.skip(next as int));
        }
        pos = next;
    }
    Some((unit, values, time_us))
}

/// The unit field: key, length, bytes; absent when the unit is empty.
pub open spec fn unit_part(u: Seq<u8>) -> Seq<u8> {
    if u.len() == 0 {
        seq![]
    } else {
        seq![(UNIT_FIELD * 8 + WIRE_LEN) as u8] + varint_bytes(u.len()) + u
    }
}

/// The values field, packed: key, length, four bytes each; absent when there are none.
pub open spec fn values_part(vals: Seq<u32>) -> Seq<u8> {
    if vals.len() == 0 {
        seq![]
    } else {
        seq![(VALUES_FIELD * 8 + WIRE_LEN) as u8] + varint_bytes(4 * vals.len()) + values_bytes(
            vals,
        )
    }
}

/// The time field: key, base-128 value; absent when the time is zero.
pub open spec fn time_part(t: u64) -> Seq<u8> {
    if t == 0 {
        seq![]
    } else {
        seq![(TIME_FIELD * 8 + WIRE_VARINT) as u8] + varint_bytes(t as nat)
    }
}

/// The encoding of a frame with these fields, in field order.
pub open spec fn encode_fields(u: Seq<u8>, vals: Seq<u32>, t: u64) -> Seq<u8> {
    unit_part(u) + values_part(vals) + time_part(t)
}

pub proof fn lemma_varint_fits(v: nat)
    requires
        v <= u64::MAX,
    ensures
        varint_bytes(v).len() <= MAX_VARINT_LEN,
{
    reveal_with_fuel(pow128, 11);
    assert(pow128(10) == 1180591620717411303424nat);
    lemma_varint_bytes_len(v, 10);
}

/// A field key below 128 is its own single byte.
proof fn lemma_key(key: u8, b: Seq<u8>)
    requires
        key < 128,
        b.len() > 0,
        b[0] == key,
    ensures
        varint_value(b, MAX_VARINT_LEN as nat) == Some((key as nat, 1nat)),
{
}

pub proof fn lemma_parse_unit(u: Seq<u8>, rest: Seq<u8>, f: FrameModel)
    requires
        u.len() <= u64::MAX,
    ensures
        parse_fields(unit_part(u) + rest, f) == parse_fields(
            rest,
            if u.len() == 0 {
                f
            } else {
                FrameModel { unit: u, ..f }
            },
        ),
{
    if u.len() > 0 {
        let b = unit_part(u) + rest;
        let vb = varint_bytes(u.len());
        lemma_varint_fits(u.len());
        lemma_key(10, b);
        let r1 = b.skip(1);
        assert(r1 =~= vb + (u + rest));
        lemma_varint_round_trip(u.len(), u + rest, MAX_VARINT_LEN as nat);
        assert(r1.subrange(vb.len() as int, (vb.len() + u.len()) as int) =~= u);
        assert(r1.skip((vb.len() + u.len()) as int) =~= rest);
    } else {
        assert(unit_part(u) + rest =~= rest);
    }
}

#[verifier::rlimit(40)]
pub proof fn lemma_parse_values(vals: Seq<u32>, rest: Seq<u8>, f: FrameModel)
    requires
        4 * vals.len() <= u64::MAX,
    ensures
        parse_fields(values_part(vals) + rest, f) == parse_fields(
            rest,
            FrameModel { values: f.values + vals, ..f },
        ),
{
    if vals.len() > 0 {
        let b = values_part(vals) + rest;
        let n = 4 * vals.len();
        let vb = varint_bytes(n);
        let body = values_bytes(vals);
        lemma_values_bytes_len(vals);
        lemma_values_round_trip(vals);
        lemma_varint_fits(n);
        lemma_key(18, b);
        let r1 = b.skip(1);
        assert(r1 =~= vb + (body + rest));
        lemma_varint_round_trip(n, body + rest, MAX_VARINT_LEN as nat);
        assert(r1.subrange(vb.len() as int, (vb.len() + n) as int) =~= body);
        assert(r1.skip((vb.len() + n) as int) =~= rest);
        let g = FrameModel { values: f.values + vals, ..f };
        assert(field_step(r1, 2, 2, f) == Some(((vb.len() + n) as nat, g)));
    } else {
        assert(values_part(vals) + rest =~= rest);
        assert(f.values + vals =~= f.values);
        assert(FrameModel { values: f.values + vals, ..f } == f);
    }
}

pub proof fn lemma_parse_time(t: u64, f: FrameModel)
    requires
        f.time_us == 0,
    ensures
        parse_fields(time_part(t), f) == Some(FrameModel { time_us: t, ..f }),
{
    if t > 0 {
        let b = time_part(t);
        let vb = varint_bytes(t as nat);
        lemma_varint_fits(t as nat);
        lemma_key(24, b);
        let r1 = b.skip(1);
        assert(r1 =~= vb + seq![]);
        lemma_varint_round_trip(t as nat, seq![], MAX_VARINT_LEN as nat);
        assert(r1.skip(vb.len() as int) =~= seq![]);
        let g = FrameModel { time_us: t, ..f };
        assert(parse_fields(seq![], g) == Some(g));
        assert(field_step(r1, 3, 0, f) == Some((vb.len(), g)));
    } else {
        assert(FrameModel { time_us: t, ..f } == f);
    }
}

/// Reading back the encoding of a frame gives its fields.
pub proof fn lemma_fields_round_trip(u: Seq<u8>, vals: Seq<u32>, t: u64)
    requires
        u.len() <= u64::MAX,
        4 * vals.len() <= u64::MAX,
    ensures
        parse_fields(encode_fields(u, vals, t), empty_model()) == Some(model_of(u, vals, t)),
{
    let e = empty_model();
    assert(encode_fields(u, vals, t) =~= unit_part(u) + (values_part(vals) + time_part(t)));
    lemma_parse_unit(u, values_part(vals) + time_part(t), e);
    let f1 = if u.len() == 0 {
        e
    } else {
        FrameModel { unit: u, ..e }
    };
    lemma_parse_values(vals, time_part(t), f1);
    let f2 = FrameModel { values: f1.values + vals, ..f1 };
    lemma_parse_time(t, f2);
    assert(f1.values + vals =~= vals);
    assert(f1.unit =~= u);
}

/// Appends the four bytes of `v`, least significant first.
fn push_le(out: &mut Vec<u8>, v: u32)
    ensures
        final(out)@ == old(out)@ + le_bytes(v),
{
    out.push((v % 256) as u8);
    out.push(((v / 256) % 256) as u8);
    out.push(((v / 256 / 256) % 256) as u8);
    out.push((v / 256 / 256 / 256) as u8);
    assert(final(out)@ =~= old(out)@ + le_bytes(v));
}

/// Appends `src` to `out`.
fn push_all(out: &mut Vec<u8>, src: &[u8])
    ensures
        final(out)@ == old(out)@ + src@,
{
    let mut i: usize = 0;
    while i < src.len()
        invariant
            i <= src@.len(),
            out@ == old(out)@ + src@.take(i as int),
        decreases src@.len() - i,
    {
        out.push(src[i]);
        i = i + 1;
        assert(out@ =~= old(out)@ + src@.take(i as int));
    }
    assert(src@.take(i as int) =~= src@);
}

/// Appends the bytes of each value in turn.
fn push_values(out: &mut Vec<u8>, vals: &[u32])
    ensures
        final(out)@ == old(out)@ + values_bytes(vals@),
{
    let mut i: usize = 0;
    while i < vals.len()
        invariant
            i <= vals@.len(),
            out@ == old(out)@ + values_bytes(vals@.take(i as int)),
        decreases vals@.len() - i,
    {
        push_le(out, vals[i]);
        i = i + 1;
        assert(vals@.take(i as int).drop_last() =~= vals@.take(i - 1));
        assert(out@ =~= old(out)@ + values_bytes(vals@.take(i as int)));
    }
    assert(vals@.take(i as int) =~= vals@);
}

/// The encoding of the fields of a frame: the unit's bytes, the values, the time.
pub fn encode_frame_fields(unit: &[u8], vals: &[u32], time_us: u64) -> (r: Vec<u8>)
    requires
        4 * vals@.len() <= u64::MAX,
    ensures
        r@ == encode_fields(unit@, vals@, time_us),
{
    let mut out: Vec<u8> = Vec::new();
    if unit.len() > 0 {
        out.push((UNIT_FIELD * 8 + WIRE_LEN) as u8);
        write_varint(&mut out, unit.len() as u64);
        push_all(&mut out, unit);
    }
    assert(out@ =~= unit_part(unit@));
    let ghost after_unit = out@;
    if vals.len() > 0 {
        out.push((VALUES_FIELD * 8 + WIRE_LEN) as u8);
        write_varint(&mut out, 4 * vals.len() as u64);
        push_values(&mut out, vals);
    }
    assert(out@ =~= after_unit + values_part(vals@));
    let ghost after_values = out@;
    if time_us > 0 {
        out.push((TIME_FIELD * 8 + WIRE_VARINT) as u8);
        write_varint(&mut out, time_us);
    }
    assert(out@ =~= after_values + time_part(time_us));
    assert(out@ =~= encode_fields(unit@, vals@, time_us));
    out
}

/// A frame on the wire: a unit, readings as the bits of 32-bit floats, and the
/// capture time in microseconds since the Unix epoch.
#[derive(Debug, PartialEq)]
pub struct WireFrame {
    pub unit: String,
    pub values: Vec<u32>,
    pub time_us: u64,
}

/// The bytes that encode a frame with these fields; the unit is written as UTF-8.
pub open spec fn frame_bytes(unit: Seq<char>, values: Seq<u32>, time_us: u64) -> Seq<u8> {
    encode_fields(encode_utf8(unit), values, time_us)
}

/// The frame that `b` encodes, as unit, values and time; `None` where `b` is
/// malformed or its unit is not UTF-8.
pub open spec fn frame_of(b: Seq<u8>) -> Option<(Seq<char>, Seq<u32>, u64)> {
    match parse_fields(b, empty_model()) {
        None => None,
        Some(f) => if valid_utf8(f.unit) {
            Some((decode_utf8(f.unit), f.values, f.time_us))
        } else {
            None
        },
    }
}

/// Relies on `String::from_utf8`: it succeeds exactly on valid UTF-8, and the
/// string then holds those bytes.
#[verifier::external_body]
fn string_from_utf8(b: Vec<u8>) -> (r: Option<String>)
    ensures
        r is Some <==> valid_utf8(b@),
        r matches Some(s) ==> encode_utf8(s@) == b@,
{
    String::from_utf8(b).ok()
}

/// Encodes a frame: unit, packed values, then time, each left out when empty or zero.
pub fn encode(frame: &WireFrame) -> (r: Vec<u8>)
    requires
        4 * frame.values@.len() <= u64::MAX,
    ensures
        r@ == frame_bytes(frame.unit@, frame.values@, frame.time_us),
{
    let unit = frame.unit.as_str().as_bytes();
    encode_frame_fields(unit, frame.values.as_slice(), frame.time_us)
}

/// Decodes a frame; `None` exactly where the bytes are not a well-formed frame.
pub fn decode(bytes: &[u8]) -> (r: Option<WireFrame>)
    ensures
        r is Some <==> frame_of(bytes@) is Some,
        r matches Some(w) ==> frame_of(bytes@) == Some((w.unit@, w.values@, w.time_us)),
{
    let (unit_bytes, values, time_us) = match parse_frame(bytes) {
        None => return None,
        Some(x) => x,
    };
    let ghost ub = unit_bytes@;
    match string_from_utf8(unit_bytes) {
        None => None,
        Some(unit) => {
            proof {
                encode_utf8_decode_utf8(unit@);
            }
            Some(WireFrame { unit, values, time_us })
        },
    }
}

/// Decoding the encoding of a frame gives back its unit, values and time exactly.
pub proof fn law_round_trip(unit: Seq<char>, values: Seq<u32>, time_us: u64)
    requires
        encode_utf8(unit).len() <= u64::MAX,
        4 * values.len() <= u64::MAX,
    ensures
        frame_of(frame_bytes(unit, values, time_us)) == Some((unit, values, time_us)),
{
    lemma_fields_round_trip(encode_utf8(unit), values, time_us);
    encode_utf8_valid_utf8(unit);
    encode_utf8_decode_utf8(unit);
}

} // verus!
