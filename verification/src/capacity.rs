//! Capacity arithmetic: how many payload bytes an image can hold, and the
//! size report rendered when a payload does not fit.

use vstd::prelude::*;
use vstd::arithmetic::div_mod::lemma_fundamental_div_mod;
use vstd::string::StringExecFns;
use crate::errors::StegError;

verus! {

/// The bit budget in bytes: one bit per color byte, eight bits per payload
/// byte; alpha bytes contribute nothing.
pub open spec fn spec_max_data_bytes(width: int, height: int, bpp: int) -> int {
    (width * height * bpp) / 8
}

/// Bytes the serialized container needs: the payload, the 8-byte length
/// field, the extension and its zero terminator.
pub open spec fn spec_container_size(payload_len: int, ext_len: int) -> int {
    payload_len + ext_len + 9
}

/// The largest payload that would fit next to the framing overhead; zero
/// when the image cannot hold even an empty payload.
pub open spec fn spec_real_size(max: int, ext_len: int) -> int {
    if max - 9 - ext_len >= 0 {
        max - 9 - ext_len
    } else {
        0
    }
}

/// Maximum payload capacity of an image in bytes.
pub fn max_data_bytes(width: u32, height: u32, bpp: u8) -> (r: u64)
    requires
        bpp == 1 || bpp == 3,
    ensures
        r == spec_max_data_bytes(width as int, height as int, bpp as int),
{
    proof {
        assert((width as int) * (height as int) * (bpp as int) <= 0xffffffff * 0xffffffff * 3
            && 0 <= (width as int) * (height as int) * (bpp as int)) by (nonlinear_arith)
            requires
                width as int <= 0xffffffff,
                height as int <= 0xffffffff,
                0 <= width as int,
                0 <= height as int,
                1 <= bpp as int <= 3,
        ;
    }
    let total = (width as u128) * (height as u128) * (bpp as u128);
    (total / 8) as u64
}

/// Accepts a payload/extension pair only when the framed container fits in
/// the image's capacity; on rejection the error carries the largest payload
/// that would have fit.
pub fn plan_capacity(payload_len: usize, ext_len: usize, max: u64) -> (r: Result<(), StegError>)
    ensures
        (r is Ok) == (spec_container_size(payload_len as int, ext_len as int) <= max),
        r matches Err(e) ==> e == (StegError::PayloadTooLarge {
            real_size: spec_real_size(max as int, ext_len as int) as u64,
        }),
{
    let need: u128 = payload_len as u128 + ext_len as u128 + 9;
    if need <= max as u128 {
        Ok(())
    } else {
        let real_size: u64 = if ext_len as u128 + 9 <= max as u128 {
            max - 9 - ext_len as u64
        } else {
            0
        };
        Err(StegError::PayloadTooLarge { real_size })
    }
}

/// `1024^m`.
pub open spec fn pow1024(m: int) -> int
    decreases m,
{
    if m <= 0 {
        1
    } else {
        1024 * pow1024(m - 1)
    }
}

/// The binary-magnitude bucket a size is reported in: 1 for KiB up to 4 for
/// TiB; 5 and above are out of the reportable range.
pub open spec fn spec_magnitude(size: int) -> int {
    if size < pow1024(2) {
        1
    } else if size < pow1024(3) {
        2
    } else if size < pow1024(4) {
        3
    } else if size < pow1024(5) {
        4
    } else if size < pow1024(6) {
        5
    } else {
        6
    }
}

/// The size scaled to its magnitude's unit, in hundredths, rounded to the
/// nearest with ties to even: the two-decimal value the report prints.
pub open spec fn spec_hundredths(size: int, m: int) -> int {
    let num = size * 100;
    let den = pow1024(m);
    if 2 * (num % den) > den || (2 * (num % den) == den && (num / den) % 2 == 1) {
        num / den + 1
    } else {
        num / den
    }
}

/// Magnitude of a size in bytes; only buckets 1 (KiB) through 4 (TiB) can be
/// rendered.
pub fn size_magnitude(real_size: u64) -> (m: u64)
    ensures
        m == spec_magnitude(real_size as int),
        1 <= m <= 6,
{
    proof {
        reveal_with_fuel(pow1024, 8);
    }
    if real_size < 1048576 {
        1
    } else if real_size < 1073741824 {
        2
    } else if real_size < 1099511627776 {
        3
    } else if real_size < 1125899906842624 {
        4
    } else if real_size < 1152921504606846976 {
        5
    } else {
        6
    }
}

/// The two-decimal scaled value of a size within its magnitude bucket.
pub fn size_hundredths(real_size: u64, m: u64) -> (h: u64)
    requires
        m == spec_magnitude(real_size as int),
    ensures
        h == spec_hundredths(real_size as int, m as int),
{
    proof {
        reveal_with_fuel(pow1024, 8);
    }
    let den: u64 = if m == 1 {
        1024
    } else if m == 2 {
        1048576
    } else if m == 3 {
        1073741824
    } else if m == 4 {
        1099511627776
    } else if m == 5 {
        1125899906842624
    } else {
        1152921504606846976
    };
    let num: u128 = real_size as u128 * 100;
    let d: u128 = den as u128;
    let q: u128 = num / d;
    let r: u128 = num % d;
    proof {
        lemma_fundamental_div_mod(num as int, d as int);
        assert(1024 * q <= num) by (nonlinear_arith)
            requires
                num == d * (q as int) + r,
                r >= 0,
                d >= 1024,
                q >= 0,
        ;
        assert(q < 0x2000000000000000);
    }
    if 2 * r > d || (2 * r == d && q % 2 == 1) {
        (q + 1) as u64
    } else {
        q as u64
    }
}

/// The unit name of a magnitude bucket, or nothing when the size is out of
/// the reportable range.
pub fn magnitude_unit(m: u64) -> (r: Option<&'static str>)
    ensures
        (r is Some) == (1 <= m <= 4),
        m == 1 ==> (r matches Some(u) && u@ == "KiB"@),
        m == 2 ==> (r matches Some(u) && u@ == "MiB"@),
        m == 3 ==> (r matches Some(u) && u@ == "GiB"@),
        m == 4 ==> (r matches Some(u) && u@ == "TiB"@),
{
    if m == 1 {
        Some("KiB")
    } else if m == 2 {
        Some("MiB")
    } else if m == 3 {
        Some("GiB")
    } else if m == 4 {
        Some("TiB")
    } else {
        None
    }
}

/// The decimal digit character for `d`.
pub open spec fn digit_char(d: int) -> char {
    ((48 + d) as u8) as char
}

/// The decimal digits of `n`, most significant first.
pub open spec fn decimal_chars(n: int) -> Seq<char>
    decreases n,
{
    if n < 10 {
        seq![digit_char(n)]
    } else {
        decimal_chars(n / 10).push(digit_char(n % 10))
    }
}

fn digit_str(d: u64) -> (r: &'static str)
    requires
        d < 10,
    ensures
        r@ == seq![digit_char(d as int)],
{
    let r = if d == 0 {
        "0"
    } else if d == 1 {
        "1"
    } else if d == 2 {
        "2"
    } else if d == 3 {
        "3"
    } else if d == 4 {
        "4"
    } else if d == 5 {
        "5"
    } else if d == 6 {
        "6"
    } else if d == 7 {
        "7"
    } else if d == 8 {
        "8"
    } else {
        "9"
    };
    proof {
        reveal_strlit("0");
        reveal_strlit("1");
        reveal_strlit("2");
        reveal_strlit("3");
        reveal_strlit("4");
        reveal_strlit("5");
        reveal_strlit("6");
        reveal_strlit("7");
        reveal_strlit("8");
        reveal_strlit("9");
        assert(r@ =~= seq![digit_char(d as int)]);
    }
    r
}

/// Appends the decimal digits of `n`.
fn push_decimal(out: &mut String, n: u64)
    ensures
        final(out)@ == old(out)@ + decimal_chars(n as int),
    decreases n,
{
    if n < 10 {
        out.append(digit_str(n));
    } else {
        push_decimal(out, n / 10);
        out.append(digit_str(n % 10));
        proof {
            assert(out@ =~= old(out)@ + decimal_chars(n as int));
        }
    }
}

/// The overflow report's size text: the scaled value with two decimals, a
/// space, and the magnitude's unit name.
pub open spec fn size_chars(size: int) -> Seq<char> {
    let m = spec_magnitude(size);
    let h = spec_hundredths(size, m);
    decimal_chars(h / 100) + seq!['.', digit_char((h / 10) % 10), digit_char(h % 10), ' ']
        + unit_chars(m)
}

/// The unit name of a reportable magnitude bucket, as characters.
pub open spec fn unit_chars(m: int) -> Seq<char> {
    if m == 1 {
        "KiB"@
    } else if m == 2 {
        "MiB"@
    } else if m == 3 {
        "GiB"@
    } else {
        "TiB"@
    }
}

/// Renders a byte count in binary-magnitude units with two decimals, as the
/// overflow report shows it; sizes beyond the TiB bucket are out of range.
pub fn format_size(real_size: u64) -> (r: Option<String>)
    ensures
        (r is Some) == (spec_magnitude(real_size as int) <= 4),
        r matches Some(s) ==> s@ == size_chars(real_size as int),
{
    let m = size_magnitude(real_size);
    let unit = match magnitude_unit(m) {
        Some(u) => u,
        None => {
            return None;
        },
    };
    let h = size_hundredths(real_size, m);
    let mut out = String::new();
    push_decimal(&mut out, h / 100);
    out.append(".");
    out.append(digit_str(h / 10 % 10));
    out.append(digit_str(h % 10));
    out.append(" ");
    out.append(unit);
    proof {
        reveal_strlit(".");
        reveal_strlit(" ");
        assert(out@ =~= size_chars(real_size as int));
    }
    Some(out)
}

} // verus!
