//! The naming conventions of the appliance, as a verified grammar over
//! ASCII bytes.
//!
//! A local frame is named `door-<YYYYMMDD-HH:MM:SS>.jpg`; a persisted frame
//! goes under the destination key `<YYYYMMDD_HH:MM:SS>/detection_<NN>`.
//! Formatting and parsing are proved inverse to each other, so a name in
//! the registry always matches the convention and decodes to its instant.

use vstd::prelude::*;
use crate::timestamp::Timestamp;
use crate::timestamp::month_length;

verus! {

use vstd::arithmetic::div_mod::lemma_fundamental_div_mod;
use vstd::arithmetic::div_mod::lemma_fundamental_div_mod_converse;
use vstd::arithmetic::div_mod::lemma_small_mod;

broadcast use vstd::arithmetic::div_mod::lemma_mod_division_less_than_divisor, vstd::arithmetic::div_mod::lemma_mod_bound;

/// The ASCII byte of a single decimal digit.
pub open spec fn digit(d: int) -> u8 {
    (48 + d) as u8
}

pub open spec fn is_digit(b: u8) -> bool {
    48 <= b <= 57
}

pub open spec fn digit_val(b: u8) -> int {
    b - 48
}

/// Two-digit zero-padded decimal.
pub open spec fn dec2(n: int) -> Seq<u8> {
    seq![digit(n / 10 % 10), digit(n % 10)]
}

/// Four-digit zero-padded decimal.
pub open spec fn dec4(n: int) -> Seq<u8> {
    seq![digit(n / 1000 % 10), digit(n / 100 % 10), digit(n / 10 % 10), digit(n % 10)]
}

/// Plain decimal, no padding.
pub open spec fn dec(n: int) -> Seq<u8>
    decreases n,
{
    if n < 10 {
        seq![digit(n)]
    } else {
        dec(n / 10) + seq![digit(n % 10)]
    }
}

/// Decimal padded to at least two digits, as burst sequence numbers are
/// written.
pub open spec fn dec_min2(n: int) -> Seq<u8> {
    if n < 100 {
        dec2(n)
    } else {
        dec(n)
    }
}

/// `door-<YYYYMMDD-HH:MM:SS>.jpg`: the local name of the frame captured at
/// the given instant.
pub open spec fn frame_name_spec(ts: Timestamp) -> Seq<u8> {
    seq![('d' as u8), ('o' as u8), ('o' as u8), ('r' as u8), ('-' as u8)] + dec4(ts.year as int) + dec2(ts.month as int) + dec2(
        ts.day as int,
    ) + seq![('-' as u8)] + dec2(ts.hour as int) + seq![(':' as u8)] + dec2(ts.minute as int) + seq![(':' as u8)] + dec2(
        ts.second as int,
    ) + seq![('.' as u8), ('j' as u8), ('p' as u8), ('g' as u8)]
}

/// `<YYYYMMDD_HH:MM:SS>`: the shared time base of one persistence pass.
pub open spec fn time_base_spec(ts: Timestamp) -> Seq<u8> {
    dec4(ts.year as int) + dec2(ts.month as int) + dec2(ts.day as int) + seq![('_' as u8)] + dec2(
        ts.hour as int,
    ) + seq![(':' as u8)] + dec2(ts.minute as int) + seq![(':' as u8)] + dec2(ts.second as int)
}

/// `<timeBase>/detection_<NN>`: the destination key of the `n`-th frame of
/// a persistence pass.
pub open spec fn dest_key_spec(now: Timestamp, n: int) -> Seq<u8> {
    time_base_spec(now) + seq![('/' as u8)] + seq![('d' as u8), ('e' as u8), ('t' as u8), ('e' as u8), ('c' as u8), ('t' as u8), ('i' as u8), ('o' as u8), ('n' as u8), ('_' as u8)]
        + dec_min2(n)
}

fn push_dec2(out: &mut Vec<u8>, n: u64)
    requires
        n < 100,
    ensures
        final(out)@ == old(out)@ + dec2(n as int),
{
    out.push(48 + (n / 10) as u8);
    out.push(48 + (n % 10) as u8);
    proof {
        assert(out@ =~= old(out)@ + dec2(n as int));
    }
}

fn push_dec4(out: &mut Vec<u8>, n: u64)
    requires
        n < 10000,
    ensures
        final(out)@ == old(out)@ + dec4(n as int),
{
    out.push(48 + (n / 1000) as u8);
    out.push(48 + (n / 100 % 10) as u8);
    out.push(48 + (n / 10 % 10) as u8);
    out.push(48 + (n % 10) as u8);
    proof {
        assert(out@ =~= old(out)@ + dec4(n as int));
    }
}

fn push_dec(out: &mut Vec<u8>, n: u64)
    ensures
        final(out)@ == old(out)@ + dec(n as int),
    decreases n,
{
    if n >= 10 {
        push_dec(out, n / 10);
    }
    out.push(48 + (n % 10) as u8);
    proof {
        assert(out@ =~= old(out)@ + dec(n as int));
    }
}

fn push_dec_min2(out: &mut Vec<u8>, n: u64)
    ensures
        final(out)@ == old(out)@ + dec_min2(n as int),
{
    if n < 100 {
        push_dec2(out, n);
    } else {
        push_dec(out, n);
    }
}

/// Formats the local name of the frame captured at `ts`.
pub fn frame_name(ts: &Timestamp) -> (name: Vec<u8>)
    requires
        ts.wf(),
    ensures
        name@ == frame_name_spec(*ts),
{
    let mut v: Vec<u8> = Vec::new();
    v.push(('d' as u8));
    v.push(('o' as u8));
    v.push(('o' as u8));
    v.push(('r' as u8));
    v.push(('-' as u8));
    push_dec4(&mut v, ts.year as u64);
    push_dec2(&mut v, ts.month as u64);
    push_dec2(&mut v, ts.day as u64);
    v.push(('-' as u8));
    push_dec2(&mut v, ts.hour as u64);
    v.push((':' as u8));
    push_dec2(&mut v, ts.minute as u64);
    v.push((':' as u8));
    push_dec2(&mut v, ts.second as u64);
    v.push(('.' as u8));
    v.push(('j' as u8));
    v.push(('p' as u8));
    v.push(('g' as u8));
    proof {
        assert(v@ =~= frame_name_spec(*ts));
    }
    v
}

/// Formats the shared time base of a persistence pass begun at `ts`.
pub fn time_base(ts: &Timestamp) -> (base: Vec<u8>)
    requires
        ts.wf(),
    ensures
        base@ == time_base_spec(*ts),
{
    let mut v: Vec<u8> = Vec::new();
    push_dec4(&mut v, ts.year as u64);
    push_dec2(&mut v, ts.month as u64);
    push_dec2(&mut v, ts.day as u64);
    v.push(('_' as u8));
    push_dec2(&mut v, ts.hour as u64);
    v.push((':' as u8));
    push_dec2(&mut v, ts.minute as u64);
    v.push((':' as u8));
    push_dec2(&mut v, ts.second as u64);
    proof {
        assert(v@ =~= time_base_spec(*ts));
    }
    v
}

/// Formats the destination key of the `n`-th frame of a pass begun at `now`.
pub fn dest_key(now: &Timestamp, n: u64) -> (key: Vec<u8>)
    requires
        now.wf(),
    ensures
        key@ == dest_key_spec(*now, n as int),
{
    let mut v = time_base(now);
    v.push(('/' as u8));
    v.push(('d' as u8));
    v.push(('e' as u8));
    v.push(('t' as u8));
    v.push(('e' as u8));
    v.push(('c' as u8));
    v.push(('t' as u8));
    v.push(('i' as u8));
    v.push(('o' as u8));
    v.push(('n' as u8));
    v.push(('_' as u8));
    push_dec_min2(&mut v, n);
    proof {
        assert(v@ =~= dest_key_spec(*now, n as int));
    }
    v
}

/// The shape of a local frame name: length, literal bytes, digit positions.
pub open spec fn name_shape_ok(s: Seq<u8>) -> bool {
    &&& s.len() == 26
    &&& s[0] == 'd' as u8
    &&& s[1] == 'o' as u8
    &&& s[2] == 'o' as u8
    &&& s[3] == 'r' as u8
    &&& s[4] == '-' as u8
    &&& is_digit(s[5]) && is_digit(s[6]) && is_digit(s[7]) && is_digit(s[8])
    &&& is_digit(s[9]) && is_digit(s[10]) && is_digit(s[11]) && is_digit(s[12])
    &&& s[13] == '-' as u8
    &&& is_digit(s[14]) && is_digit(s[15])
    &&& s[16] == ':' as u8
    &&& is_digit(s[17]) && is_digit(s[18])
    &&& s[19] == ':' as u8
    &&& is_digit(s[20]) && is_digit(s[21])
    &&& s[22] == '.' as u8
    &&& s[23] == 'j' as u8
    &&& s[24] == 'p' as u8
    &&& s[25] == 'g' as u8
}

/// The instant whose digits a shaped name carries.
pub open spec fn decoded_timestamp(s: Seq<u8>) -> Timestamp {
    Timestamp {
        year: (1000 * digit_val(s[5]) + 100 * digit_val(s[6]) + 10 * digit_val(s[7]) + digit_val(
            s[8],
        )) as u16,
        month: (10 * digit_val(s[9]) + digit_val(s[10])) as u8,
        day: (10 * digit_val(s[11]) + digit_val(s[12])) as u8,
        hour: (10 * digit_val(s[14]) + digit_val(s[15])) as u8,
        minute: (10 * digit_val(s[17]) + digit_val(s[18])) as u8,
        second: (10 * digit_val(s[20]) + digit_val(s[21])) as u8,
    }
}

/// A name parses to an instant when it has the right shape, carries that
/// instant's digits, and those digits form a real calendar instant.
pub open spec fn parses_to(s: Seq<u8>, ts: Timestamp) -> bool {
    &&& name_shape_ok(s)
    &&& decoded_timestamp(s) == ts
    &&& ts.wf()
}

proof fn lemma_digits2(a: int, b: int)
    requires
        0 <= a < 10,
        0 <= b < 10,
    ensures
        (10 * a + b) / 10 % 10 == a,
        (10 * a + b) % 10 == b,
{
    lemma_fundamental_div_mod_converse(10 * a + b, 10, a, b);
    lemma_small_mod(a as nat, 10);
}

proof fn lemma_digits4(a: int, b: int, c: int, d: int)
    requires
        0 <= a < 10,
        0 <= b < 10,
        0 <= c < 10,
        0 <= d < 10,
    ensures
        (1000 * a + 100 * b + 10 * c + d) / 1000 % 10 == a,
        (1000 * a + 100 * b + 10 * c + d) / 100 % 10 == b,
        (1000 * a + 100 * b + 10 * c + d) / 10 % 10 == c,
        (1000 * a + 100 * b + 10 * c + d) % 10 == d,
{
    let n = 1000 * a + 100 * b + 10 * c + d;
    lemma_fundamental_div_mod_converse(n, 1000, a, 100 * b + 10 * c + d);
    lemma_small_mod(a as nat, 10);
    lemma_fundamental_div_mod_converse(n, 100, 10 * a + b, 10 * c + d);
    lemma_digits2(a, b);
    lemma_fundamental_div_mod_converse(n, 10, 100 * a + 10 * b + c, d);
    lemma_fundamental_div_mod_converse(100 * a + 10 * b + c, 10, 10 * a + b, c);
}

proof fn lemma_dec2_value(n: int)
    requires
        0 <= n < 100,
    ensures
        10 * (n / 10 % 10) + n % 10 == n,
        0 <= n / 10 % 10 < 10,
        0 <= n % 10 < 10,
{
    lemma_fundamental_div_mod(n, 10);
    lemma_digits2(n / 10, n % 10);
}

proof fn lemma_dec4_value(n: int)
    requires
        0 <= n < 10000,
    ensures
        1000 * (n / 1000 % 10) + 100 * (n / 100 % 10) + 10 * (n / 10 % 10) + n % 10 == n,
{
    let a = n / 1000;
    let r1 = n % 1000;
    let b = r1 / 100;
    let r2 = r1 % 100;
    let c = r2 / 10;
    let d = r2 % 10;
    lemma_fundamental_div_mod(n, 1000);
    lemma_fundamental_div_mod(r1, 100);
    lemma_fundamental_div_mod(r2, 10);
    assert(n == 1000 * a + 100 * b + 10 * c + d);
    lemma_digits4(a, b, c, d);
}

/// Formatting then reading back: a well-formed instant's name has the
/// expected shape and decodes to the same instant.
pub proof fn lemma_frame_name_parses(ts: Timestamp)
    requires
        ts.wf(),
    ensures
        parses_to(frame_name_spec(ts), ts),
{
    let s = frame_name_spec(ts);
    let y = ts.year as int;
    let mo = ts.month as int;
    let dd = ts.day as int;
    let h = ts.hour as int;
    let mi = ts.minute as int;
    let se = ts.second as int;
    assert(s =~= seq![
        'd' as u8,
        'o' as u8,
        'o' as u8,
        'r' as u8,
        '-' as u8,
        digit(y / 1000 % 10),
        digit(y / 100 % 10),
        digit(y / 10 % 10),
        digit(y % 10),
        digit(mo / 10 % 10),
        digit(mo % 10),
        digit(dd / 10 % 10),
        digit(dd % 10),
        '-' as u8,
        digit(h / 10 % 10),
        digit(h % 10),
        ':' as u8,
        digit(mi / 10 % 10),
        digit(mi % 10),
        ':' as u8,
        digit(se / 10 % 10),
        digit(se % 10),
        '.' as u8,
        'j' as u8,
        'p' as u8,
        'g' as u8,
    ]);
    lemma_dec4_value(y);
    lemma_dec2_value(mo);
    lemma_dec2_value(dd);
    lemma_dec2_value(h);
    lemma_dec2_value(mi);
    lemma_dec2_value(se);
    assert(decoded_timestamp(s).year == ts.year);
    assert(decoded_timestamp(s).month == ts.month);
    assert(decoded_timestamp(s).day == ts.day);
    assert(decoded_timestamp(s).hour == ts.hour);
    assert(decoded_timestamp(s).minute == ts.minute);
    assert(decoded_timestamp(s).second == ts.second);
}

/// Reading then formatting: a shaped name whose digits form a real instant
/// is exactly that instant's name.
pub proof fn lemma_decoded_formats(s: Seq<u8>)
    requires
        name_shape_ok(s),
        decoded_timestamp(s).wf(),
    ensures
        frame_name_spec(decoded_timestamp(s)) == s,
{
    let ts = decoded_timestamp(s);
    let a = digit_val(s[5]);
    let b = digit_val(s[6]);
    let c = digit_val(s[7]);
    let d = digit_val(s[8]);
    lemma_digits4(a, b, c, d);
    lemma_digits2(digit_val(s[9]), digit_val(s[10]));
    lemma_digits2(digit_val(s[11]), digit_val(s[12]));
    lemma_digits2(digit_val(s[14]), digit_val(s[15]));
    lemma_digits2(digit_val(s[17]), digit_val(s[18]));
    lemma_digits2(digit_val(s[20]), digit_val(s[21]));
    assert(frame_name_spec(ts) =~= s);
}

/// Distinct well-formed instants never share a frame name.
pub proof fn lemma_frame_name_injective(t1: Timestamp, t2: Timestamp)
    requires
        t1.wf(),
        t2.wf(),
        frame_name_spec(t1) == frame_name_spec(t2),
    ensures
        t1 == t2,
{
    lemma_frame_name_parses(t1);
    lemma_frame_name_parses(t2);
}

fn is_digit_byte(b: u8) -> (r: bool)
    ensures
        r == is_digit(b),
{
    48 <= b && b <= 57
}

fn shape_ok(name: &[u8]) -> (r: bool)
    ensures
        r == name_shape_ok(name@),
{
    if name.len() != 26 {
        return false;
    }
    name[0] == ('d' as u8) && name[1] == ('o' as u8) && name[2] == ('o' as u8) && name[3] == ('r'
        as u8) && name[4] == ('-' as u8) && is_digit_byte(name[5]) && is_digit_byte(name[6])
        && is_digit_byte(name[7]) && is_digit_byte(name[8]) && is_digit_byte(name[9])
        && is_digit_byte(name[10]) && is_digit_byte(name[11]) && is_digit_byte(name[12])
        && name[13] == ('-' as u8) && is_digit_byte(name[14]) && is_digit_byte(name[15])
        && name[16] == (':' as u8) && is_digit_byte(name[17]) && is_digit_byte(name[18])
        && name[19] == (':' as u8) && is_digit_byte(name[20]) && is_digit_byte(name[21])
        && name[22] == ('.' as u8) && name[23] == ('j' as u8) && name[24] == ('p' as u8)
        && name[25] == ('g' as u8)
}

fn decode_fields(name: &[u8]) -> (ts: Timestamp)
    requires
        name_shape_ok(name@),
    ensures
        ts == decoded_timestamp(name@),
{
    let year: u16 = (name[5] - 48) as u16 * 1000 + (name[6] - 48) as u16 * 100 + (name[7] - 48)
        as u16 * 10 + (name[8] - 48) as u16;
    let month: u8 = (name[9] - 48) * 10 + (name[10] - 48);
    let day: u8 = (name[11] - 48) * 10 + (name[12] - 48);
    let hour: u8 = (name[14] - 48) * 10 + (name[15] - 48);
    let minute: u8 = (name[17] - 48) * 10 + (name[18] - 48);
    let second: u8 = (name[20] - 48) * 10 + (name[21] - 48);
    Timestamp { year, month, day, hour, minute, second }
}

/// Reads a local file name against the frame naming convention. Names that
/// do not match the convention are no frames and yield `None`.
pub fn parse_frame_name(name: &[u8]) -> (r: Option<Timestamp>)
    ensures
        match r {
            Some(ts) => parses_to(name@, ts),
            None => forall|ts: Timestamp| !parses_to(name@, ts),
        },
{
    if !shape_ok(name) {
        return None;
    }
    let ts = decode_fields(name);
    let valid = 1 <= ts.month && ts.month <= 12 && 1 <= ts.day && ts.hour < 24 && ts.minute < 60
        && ts.second < 60 && ts.day <= month_length(ts.year, ts.month);
    if valid {
        Some(ts)
    } else {
        proof {
            assert(ts.year <= 9999);
            assert(!ts.wf());
        }
        None
    }
}

} // verus!
