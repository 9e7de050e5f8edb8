use vstd::prelude::*;

use crate::fixed::{Fx, FX_SCALE};
use crate::math::{Vec3, Vec4};
use crate::render_3d::{Model, PolygonData};

verus! {

/// Why a model file could not be parsed, with the offending line.
#[derive(Clone, Copy, Debug, PartialEq, Eq, Structural)]
pub enum ObjErrorKind {
    /// A geometry directive has too few numeric fields.
    MissingField,
    /// A numeric field is not a decimal number this library accepts (at
    /// most 7 integer and 7 fractional digits).
    BadNumber,
    /// A face has more than 3 vertex references.
    TooManyVertices,
    /// A face references a vertex slot 0 or one past the vertex list.
    BadIndex,
    /// The line starts with a token that is not a known directive.
    UnknownDirective,
}

/// A fatal parse error, reported with the offending line number.
#[derive(Clone, Copy, Debug, PartialEq, Eq, Structural)]
pub struct ObjError {
    pub line: usize,
    pub kind: ObjErrorKind,
}

/// Whether a byte is an ASCII decimal digit.
pub open spec fn is_digit(b: u8) -> bool {
    48 <= b <= 57
}

/// The value of the digit run `s[a..b)`.
pub open spec fn digits_val(s: Seq<u8>, a: int, b: int) -> int
    decreases b - a,
{
    if a >= b {
        0
    } else {
        digits_val(s, a, b - 1) * 10 + (s[b - 1] - 48)
    }
}

/// Whether every byte of `s[a..b)` is a digit.
pub open spec fn all_digits(s: Seq<u8>, a: int, b: int) -> bool {
    forall|i: int| a <= i < b ==> is_digit(#[trigger] s[i])
}

/// The position of the first `.` in `s[a..b)`, or `b` when there is none.
pub open spec fn first_dot(s: Seq<u8>, a: int, b: int) -> int
    decreases b - a,
{
    if a >= b {
        b
    } else if s[a] == 46 {
        a
    } else {
        first_dot(s, a + 1, b)
    }
}

/// Whether the token `s[a..b)` is a decimal number this library accepts:
/// an optional sign, 1 to 7 integer digits, and optionally a point followed
/// by fractional digits (of which the first 7 carry value).
pub open spec fn decimal_ok(s: Seq<u8>, a: int, b: int) -> bool {
    let a2 = if a < b && (s[a] == 45 || s[a] == 43) {
        a + 1
    } else {
        a
    };
    let dot = first_dot(s, a2, b);
    &&& a <= b <= s.len()
    &&& 1 <= dot - a2 <= 7
    &&& all_digits(s, a2, dot)
    &&& (dot < b ==> all_digits(s, dot + 1, b))
}

/// The raw fixed-point value of an accepted decimal token: the integer part
/// scaled, plus the first (up to 7) fractional digits scaled and truncated.
pub open spec fn decimal_raw(s: Seq<u8>, a: int, b: int) -> int {
    let a2 = if a < b && (s[a] == 45 || s[a] == 43) {
        a + 1
    } else {
        a
    };
    let dot = first_dot(s, a2, b);
    let fk = if dot < b {
        if b - dot - 1 <= 7 {
            b - dot - 1
        } else {
            7
        }
    } else {
        0
    };
    let ip = digits_val(s, a2, dot);
    let fv = digits_val(s, dot + 1, dot + 1 + fk);
    let mag = ip * (FX_SCALE as int) + (fv * (FX_SCALE as int)) / pow10(fk);
    if a < b && s[a] == 45 {
        -mag
    } else {
        mag
    }
}

/// Powers of ten up to the fractional digit cap.
pub open spec fn pow10(k: int) -> int
    decreases k,
{
    if k <= 0 {
        1
    } else {
        10 * pow10(k - 1)
    }
}

/// The first eight powers of ten, spelled out for the solver.
proof fn lemma_pow10_vals()
    ensures
        pow10(0) == 1,
        pow10(1) == 10,
        pow10(2) == 100,
        pow10(3) == 1000,
        pow10(4) == 10000,
        pow10(5) == 100000,
        pow10(6) == 1000000,
        pow10(7) == 10000000,
{
    assert(pow10(0) == 1);
    assert(pow10(1) == 10);
    assert(pow10(2) == 100);
    assert(pow10(3) == 1000);
    assert(pow10(4) == 10000);
    assert(pow10(5) == 100000);
    assert(pow10(6) == 1000000);
    assert(pow10(7) == 10000000);
}

/// Powers of ten up to the cap, bounded.
proof fn lemma_pow10_le7(k: int)
    requires
        0 <= k <= 7,
    ensures
        1 <= pow10(k) <= 10000000,
{
    lemma_pow10_vals();
    if k == 0 {
    } else if k == 1 {
    } else if k == 2 {
    } else if k == 3 {
    } else if k == 4 {
    } else if k == 5 {
    } else if k == 6 {
    } else {
        assert(k == 7);
    }
}

/// `first_dot` stays within the scanned range.
proof fn lemma_first_dot_range(s: Seq<u8>, a: int, b: int)
    requires
        a <= b,
    ensures
        a <= first_dot(s, a, b) <= b,
    decreases b - a,
{
    if a < b && s[a] != 46 {
        lemma_first_dot_range(s, a + 1, b);
    }
}

/// Parses the token `text[a..b)` as a decimal number into a raw fixed-point
/// value; `None` exactly when the token is not an accepted decimal.
pub fn parse_fixed(text: &Vec<u8>, a: usize, b: usize) -> (r: Option<Fx>)
    requires
        a <= b <= text@.len(),
    ensures
        r is Some <==> decimal_ok(text@, a as int, b as int),
        r matches Some(v) ==> v.raw == decimal_raw(text@, a as int, b as int) && v.bounded(),
{
    let mut i = a;
    let mut neg = false;
    if i < b && (text[i] == 45 || text[i] == 43) {
        neg = text[i] == 45;
        i += 1;
    }
    let a2 = i;
    let mut ip: i64 = 0;
    while i < b && text[i] != 46 && text[i] >= 48 && text[i] <= 57
        invariant
            a <= a2 <= i <= b <= text@.len(),
            a2 as int == (if a < b && (text@[a as int] == 45 || text@[a as int] == 43) {
                a + 1
            } else {
                a as int
            }),
            neg == (a < b && text@[a as int] == 45),
            all_digits(text@, a2 as int, i as int),
            forall|q: int| a2 <= q < i ==> text@[q] != 46,
            ip == digits_val(text@, a2 as int, i as int),
            i - a2 <= 7,
            0 <= ip < pow10(i - a2),
            0 <= ip < 10000000,
        decreases b - i,
    {
        if i - a2 >= 7 {
            proof {
                lemma_first_dot_ge(text@, a2 as int, i + 1, b as int);
                assert(first_dot(text@, a2 as int, b as int) - a2 > 7);
            }
            return None;
        }
        proof {
            lemma_pow10_le7(i + 1 - a2);
            assert(pow10(i + 1 - a2) == 10 * pow10(i - a2));
            assert(ip * 10 + 9 < 10 * pow10(i - a2)) by (nonlinear_arith)
                requires
                    ip < pow10(i - a2),
                    0 <= ip,
            ;
        }
        ip = ip * 10 + ((text[i] - 48) as i64);
        i += 1;
    }
    let dot = i;
    proof {
        if dot < b && text@[dot as int] == 46 {
            lemma_first_dot_exact(text@, a2 as int, dot as int, b as int);
        } else if dot == b {
            lemma_first_dot_exact(text@, a2 as int, dot as int, b as int);
        } else {
            lemma_first_dot_ge(text@, a2 as int, dot + 1, b as int);
        }
    }
    if dot == a2 {
        return None;
    }
    if i < b && text[i] != 46 {
        // a byte that is neither a digit nor the point
        proof {
            assert(!is_digit(text@[dot as int]));
            assert(first_dot(text@, a2 as int, b as int) > dot as int);
            assert(!all_digits(text@, a2 as int, first_dot(text@, a2 as int, b as int)));
        }
        return None;
    }
    let mut fv: i64 = 0;
    let mut fk: u32 = 0;
    if i < b {
        i += 1;
        let fstart = i;
        while i < b
            invariant
                a <= a2 < fstart <= i <= b <= text@.len(),
                a2 as int == (if a < b && (text@[a as int] == 45 || text@[a as int] == 43) {
                    a + 1
                } else {
                    a as int
                }),
                neg == (a < b && text@[a as int] == 45),
                fstart == dot + 1,
                dot as int == first_dot(text@, a2 as int, b as int),
                1 <= dot - a2 <= 7,
                all_digits(text@, a2 as int, dot as int),
                ip == digits_val(text@, a2 as int, dot as int),
                0 <= ip < 10000000,
                all_digits(text@, fstart as int, i as int),
                fk == (if i - fstart <= 7 {
                    i - fstart
                } else {
                    7
                }),
                fv == digits_val(text@, fstart as int, fstart + fk),
                0 <= fv < pow10(fk as int),
                0 <= fv < 10000000,
                fk <= 7,
            decreases b - i,
        {
            let c = text[i];
            if c < 48 || c > 57 {
                return None;
            }
            if i - fstart < 7 {
                proof {
                    lemma_pow10_le7(fk + 1);
                    assert(pow10(fk + 1) == 10 * pow10(fk as int));
                    assert(fv * 10 + 9 < 10 * pow10(fk as int)) by (nonlinear_arith)
                        requires
                            fv < pow10(fk as int),
                            0 <= fv,
                    ;
                }
                fv = fv * 10 + ((c - 48) as i64);
                fk += 1;
            }
            i += 1;
        }
    }
    let p10 = pow10_exec(fk);
    proof {
        assert(0 <= fv * (FX_SCALE as int) <= 10000000 * (FX_SCALE as int)) by (nonlinear_arith)
            requires
                0 <= fv < 10000000,
        ;
        assert(fv * (FX_SCALE as int) <= (fv * (FX_SCALE as int)) * (p10 as int))
            by (nonlinear_arith)
            requires
                p10 >= 1,
                fv * (FX_SCALE as int) >= 0,
        ;
        crate::fixed::lemma_div_quotient_bound(
            fv * (FX_SCALE as int),
            p10 as int,
            fv * (FX_SCALE as int),
        );
    }
    let frac_raw = (((fv as u64) * (FX_SCALE as u64)) / (p10 as u64)) as i64;
    proof {
        assert(0 <= ip * (FX_SCALE as int) <= 10000000 * (FX_SCALE as int)) by (nonlinear_arith)
            requires
                0 <= ip < 10000000,
        ;
    }
    let mag = ip * FX_SCALE + frac_raw;
    let raw = if neg {
        -mag
    } else {
        mag
    };
    Some(Fx { raw })
}

/// Parses the token `text[a..b)` as an unsigned index of at most 7 digits;
/// `None` exactly when it is not such a digit run.
pub fn parse_index(text: &Vec<u8>, a: usize, b: usize) -> (r: Option<u32>)
    requires
        a <= b <= text@.len(),
    ensures
        r is Some <==> (1 <= b - a <= 7 && all_digits(text@, a as int, b as int)),
        r matches Some(v) ==> v == digits_val(text@, a as int, b as int),
{
    if b - a < 1 || b - a > 7 {
        return None;
    }
    let mut i = a;
    let mut v: u32 = 0;
    while i < b
        invariant
            a <= i <= b <= text@.len(),
            b - a <= 7,
            all_digits(text@, a as int, i as int),
            v == digits_val(text@, a as int, i as int),
            v < pow10(i - a),
            v < 10000000,
        decreases b - i,
    {
        let c = text[i];
        if c < 48 || c > 57 {
            return None;
        }
        proof {
            lemma_pow10_le7(i + 1 - a);
            assert(pow10(i + 1 - a) == 10 * pow10(i - a));
            assert(v * 10 + 9 < 10 * pow10(i - a)) by (nonlinear_arith)
                requires
                    v < pow10(i - a),
                    0 <= v,
            ;
        }
        v = v * 10 + ((c - 48) as u32);
        i += 1;
    }
    Some(v)
}

/// `first_dot` runs past any dot-free digit prefix.
proof fn lemma_first_dot_ge(s: Seq<u8>, a: int, i: int, b: int)
    requires
        a <= i <= b <= s.len(),
        forall|q: int| a <= q < i ==> s[q] != 46,
    ensures
        first_dot(s, a, b) >= i,
    decreases i - a,
{
    lemma_first_dot_range(s, a, b);
    if a < i {
        lemma_first_dot_ge(s, a + 1, i, b);
    }
}

/// When the scan stops exactly at a dot or the end, `first_dot` agrees.
proof fn lemma_first_dot_exact(s: Seq<u8>, a: int, dot: int, b: int)
    requires
        a <= dot <= b <= s.len(),
        forall|q: int| a <= q < dot ==> s[q] != 46,
        dot < b ==> (s[dot] == 46 || !is_digit(s[dot])),
    ensures
        dot < b && s[dot] == 46 ==> first_dot(s, a, b) == dot,
        dot == b ==> first_dot(s, a, b) == b,
    decreases dot - a,
{
    if a < dot {
        lemma_first_dot_exact(s, a + 1, dot, b);
    }
}

/// Ten to the `k`-th, executable.
fn pow10_exec(k: u32) -> (r: i64)
    requires
        k <= 7,
    ensures
        r == pow10(k as int),
        1 <= r <= 10000000,
{
    proof {
        lemma_pow10_vals();
    }
    if k == 0 {
        1
    } else if k == 1 {
        10
    } else if k == 2 {
        100
    } else if k == 3 {
        1000
    } else if k == 4 {
        10000
    } else if k == 5 {
        100000
    } else if k == 6 {
        1000000
    } else {
        10000000
    }
}

/// Whether a byte separates tokens within a line.
pub open spec fn is_space(b: u8) -> bool {
    b == 32 || b == 9 || b == 13
}

/// Position of the first non-separator byte in `[i, e)`, or `e`.
pub open spec fn ws_end(s: Seq<u8>, i: int, e: int) -> int
    decreases e - i,
{
    if i >= e {
        e
    } else if is_space(s[i]) {
        ws_end(s, i + 1, e)
    } else {
        i
    }
}

/// Position of the first separator byte in `[i, e)`, or `e`.
pub open spec fn tk_end(s: Seq<u8>, i: int, e: int) -> int
    decreases e - i,
{
    if i >= e {
        e
    } else if is_space(s[i]) {
        i
    } else {
        tk_end(s, i + 1, e)
    }
}

/// Position of the first line feed at or after `i`, or the text's end.
pub open spec fn nl_at(s: Seq<u8>, i: int) -> int
    decreases s.len() - i,
{
    if i < 0 || i >= s.len() {
        s.len() as int
    } else if s[i] == 10 {
        i
    } else {
        nl_at(s, i + 1)
    }
}

/// Position of the first slash in `[i, e)`, or `e`.
pub open spec fn slash_at(s: Seq<u8>, i: int, e: int) -> int
    decreases e - i,
{
    if i >= e {
        e
    } else if s[i] == 47 {
        i
    } else {
        slash_at(s, i + 1, e)
    }
}

/// Position of the first byte at or after `i` that is not a space or tab.
fn skip_spaces(text: &Vec<u8>, i: usize, end: usize) -> (r: usize)
    requires
        i <= end <= text@.len(),
    ensures
        i <= r <= end,
        r == ws_end(text@, i as int, end as int),
{
    let mut k = i;
    while k < end && (text[k] == 32 || text[k] == 9 || text[k] == 13)
        invariant
            i <= k <= end <= text@.len(),
            ws_end(text@, i as int, end as int) == ws_end(text@, k as int, end as int),
        decreases end - k,
    {
        k += 1;
    }
    k
}

/// Position of the first space or tab at or after `i`, or `end`.
fn token_end(text: &Vec<u8>, i: usize, end: usize) -> (r: usize)
    requires
        i <= end <= text@.len(),
    ensures
        i <= r <= end,
        r == tk_end(text@, i as int, end as int),
{
    let mut k = i;
    while k < end && text[k] != 32 && text[k] != 9 && text[k] != 13
        invariant
            i <= k <= end <= text@.len(),
            tk_end(text@, i as int, end as int) == tk_end(text@, k as int, end as int),
        decreases end - k,
    {
        k += 1;
    }
    k
}

/// Position of the first line feed at or after `i`, or the text's end.
fn find_newline(text: &Vec<u8>, i: usize) -> (r: usize)
    requires
        i <= text@.len(),
    ensures
        i <= r <= text@.len(),
        r == nl_at(text@, i as int),
{
    let len = text.len();
    let mut k = i;
    while k < len && text[k] != 10
        invariant
            i <= k <= len,
            len == text@.len(),
            nl_at(text@, i as int) == nl_at(text@, k as int),
        decreases len - k,
    {
        k += 1;
    }
    k
}

/// Position of the first slash in `[i, e)`, or `e`.
fn find_slash(text: &Vec<u8>, i: usize, end: usize) -> (r: usize)
    requires
        i <= end <= text@.len(),
    ensures
        i <= r <= end,
        r == slash_at(text@, i as int, end as int),
{
    let mut k = i;
    while k < end && text[k] != 47
        invariant
            i <= k <= end <= text@.len(),
            slash_at(text@, i as int, end as int) == slash_at(text@, k as int, end as int),
        decreases end - k,
    {
        k += 1;
    }
    k
}

/// Whether the token `s[a..b)` is one of the ignored directives: `#`,
/// `mtllib`, `o`, `usemtl` or `s`.
pub open spec fn tok_ignored(s: Seq<u8>, a: int, b: int) -> bool {
    ||| (b - a == 1 && s[a] == 35)
    ||| (b - a == 6 && s[a] == 109 && s[a + 1] == 116 && s[a + 2] == 108 && s[a + 3] == 108 && s[a
        + 4] == 105 && s[a + 5] == 98)
    ||| (b - a == 1 && s[a] == 111)
    ||| (b - a == 6 && s[a] == 117 && s[a + 1] == 115 && s[a + 2] == 101 && s[a + 3] == 109 && s[a
        + 4] == 116 && s[a + 5] == 108)
    ||| (b - a == 1 && s[a] == 115)
}

/// Whether the token is the vertex directive `v`.
pub open spec fn tok_v(s: Seq<u8>, a: int, b: int) -> bool {
    b - a == 1 && s[a] == 118
}

/// Whether the token is the normal directive `vn`.
pub open spec fn tok_vn(s: Seq<u8>, a: int, b: int) -> bool {
    b - a == 2 && s[a] == 118 && s[a + 1] == 110
}

/// Whether the token is the texture-coordinate directive `vt`.
pub open spec fn tok_vt(s: Seq<u8>, a: int, b: int) -> bool {
    b - a == 2 && s[a] == 118 && s[a + 1] == 116
}

/// Whether the token is the face directive `f`.
pub open spec fn tok_f(s: Seq<u8>, a: int, b: int) -> bool {
    b - a == 1 && s[a] == 102
}

/// What reading one numeric field of a directive produced.
#[derive(Clone, Copy, Debug, PartialEq, Eq, Structural)]
pub enum FieldResult {
    /// The line has no further token.
    Missing,
    /// A token that is not an accepted decimal number.
    Bad,
    /// An accepted decimal number.
    Value(Fx),
}

/// The next numeric field of a line at position `i`: missing when no token
/// is left, bad when the token is not an accepted decimal, its value
/// otherwise.
pub open spec fn spec_field(s: Seq<u8>, i: int, le: int) -> FieldResult {
    let a = ws_end(s, i, le);
    let b = tk_end(s, a, le);
    if a >= b {
        FieldResult::Missing
    } else if !decimal_ok(s, a, b) {
        FieldResult::Bad
    } else {
        FieldResult::Value(Fx { raw: decimal_raw(s, a, b) as i64 })
    }
}

/// Where scanning the next numeric field leaves the position.
pub open spec fn field_end(s: Seq<u8>, i: int, le: int) -> int {
    tk_end(s, ws_end(s, i, le), le)
}

/// Parses one numeric field: the next token in `[i, le)`, as a fixed-point
/// number.
fn parse_field(text: &Vec<u8>, i: usize, le: usize) -> (r: (FieldResult, usize))
    requires
        i <= le <= text@.len(),
    ensures
        i <= r.1 <= le,
        r.0 == spec_field(text@, i as int, le as int),
        r.1 == field_end(text@, i as int, le as int),
        r.0 matches FieldResult::Value(v) ==> v.bounded(),
{
    let ts = skip_spaces(text, i, le);
    let te = token_end(text, ts, le);
    if ts == te {
        (FieldResult::Missing, te)
    } else {
        match parse_fixed(text, ts, te) {
            Some(v) => (FieldResult::Value(v), te),
            None => (FieldResult::Bad, te),
        }
    }
}

/// The parsed `v` directive: three required coordinates and an optional w
/// defaulting to 1, or the first field's error.
pub open spec fn spec_v_line(s: Seq<u8>, b: int, le: int, ln: int) -> Result<Vec4, ObjError> {
    let f0 = spec_field(s, b, le);
    let p0 = field_end(s, b, le);
    let f1 = spec_field(s, p0, le);
    let p1 = field_end(s, p0, le);
    let f2 = spec_field(s, p1, le);
    let p2 = field_end(s, p1, le);
    let f3 = spec_field(s, p2, le);
    match f0 {
        FieldResult::Missing => Err(ObjError { line: ln as usize, kind: ObjErrorKind::MissingField }),
        FieldResult::Bad => Err(ObjError { line: ln as usize, kind: ObjErrorKind::BadNumber }),
        FieldResult::Value(x) => match f1 {
            FieldResult::Missing => Err(
                ObjError { line: ln as usize, kind: ObjErrorKind::MissingField },
            ),
            FieldResult::Bad => Err(ObjError { line: ln as usize, kind: ObjErrorKind::BadNumber }),
            FieldResult::Value(y) => match f2 {
                FieldResult::Missing => Err(
                    ObjError { line: ln as usize, kind: ObjErrorKind::MissingField },
                ),
                FieldResult::Bad => Err(
                    ObjError { line: ln as usize, kind: ObjErrorKind::BadNumber },
                ),
                FieldResult::Value(z) => match f3 {
                    FieldResult::Bad => Err(
                        ObjError { line: ln as usize, kind: ObjErrorKind::BadNumber },
                    ),
                    FieldResult::Missing => Ok(Vec4 { x, y, z, w: Fx { raw: FX_SCALE } }),
                    FieldResult::Value(w) => Ok(Vec4 { x, y, z, w }),
                },
            },
        },
    }
}

/// The parsed `vn` directive: three required coordinates.
pub open spec fn spec_vn_line(s: Seq<u8>, b: int, le: int, ln: int) -> Result<Vec3, ObjError> {
    let f0 = spec_field(s, b, le);
    let p0 = field_end(s, b, le);
    let f1 = spec_field(s, p0, le);
    let p1 = field_end(s, p0, le);
    let f2 = spec_field(s, p1, le);
    match f0 {
        FieldResult::Missing => Err(ObjError { line: ln as usize, kind: ObjErrorKind::MissingField }),
        FieldResult::Bad => Err(ObjError { line: ln as usize, kind: ObjErrorKind::BadNumber }),
        FieldResult::Value(x) => match f1 {
            FieldResult::Missing => Err(
                ObjError { line: ln as usize, kind: ObjErrorKind::MissingField },
            ),
            FieldResult::Bad => Err(ObjError { line: ln as usize, kind: ObjErrorKind::BadNumber }),
            FieldResult::Value(y) => match f2 {
                FieldResult::Missing => Err(
                    ObjError { line: ln as usize, kind: ObjErrorKind::MissingField },
                ),
                FieldResult::Bad => Err(
                    ObjError { line: ln as usize, kind: ObjErrorKind::BadNumber },
                ),
                FieldResult::Value(z) => Ok(Vec3 { x, y, z }),
            },
        },
    }
}

/// The parsed `vt` directive: two required coordinates and an optional w
/// defaulting to 0.
pub open spec fn spec_vt_line(s: Seq<u8>, b: int, le: int, ln: int) -> Result<Vec3, ObjError> {
    let f0 = spec_field(s, b, le);
    let p0 = field_end(s, b, le);
    let f1 = spec_field(s, p0, le);
    let p1 = field_end(s, p0, le);
    let f2 = spec_field(s, p1, le);
    match f0 {
        FieldResult::Missing => Err(ObjError { line: ln as usize, kind: ObjErrorKind::MissingField }),
        FieldResult::Bad => Err(ObjError { line: ln as usize, kind: ObjErrorKind::BadNumber }),
        FieldResult::Value(u) => match f1 {
            FieldResult::Missing => Err(
                ObjError { line: ln as usize, kind: ObjErrorKind::MissingField },
            ),
            FieldResult::Bad => Err(ObjError { line: ln as usize, kind: ObjErrorKind::BadNumber }),
            FieldResult::Value(v) => match f2 {
                FieldResult::Bad => Err(
                    ObjError { line: ln as usize, kind: ObjErrorKind::BadNumber },
                ),
                FieldResult::Missing => Ok(Vec3 { x: u, y: v, z: Fx { raw: 0 } }),
                FieldResult::Value(w) => Ok(Vec3 { x: u, y: v, z: w }),
            },
        },
    }
}

/// Parses a `v` directive's fields.
fn parse_v_line(text: &Vec<u8>, b: usize, le: usize, line_no: usize) -> (r: Result<Vec4, ObjError>)
    requires
        b <= le <= text@.len(),
    ensures
        r == spec_v_line(text@, b as int, le as int, line_no as int),
        r matches Ok(v) ==> v.bounded(),
{
    let (f0, p0) = parse_field(text, b, le);
    let (f1, p1) = parse_field(text, p0, le);
    let (f2, p2) = parse_field(text, p1, le);
    let (f3, _p3) = parse_field(text, p2, le);
    let x = match field_value(f0, line_no) {
        Ok(v) => v,
        Err(e) => {
            return Err(e);
        },
    };
    let y = match field_value(f1, line_no) {
        Ok(v) => v,
        Err(e) => {
            return Err(e);
        },
    };
    let z = match field_value(f2, line_no) {
        Ok(v) => v,
        Err(e) => {
            return Err(e);
        },
    };
    match f3 {
        FieldResult::Value(w) => Ok(Vec4 { x, y, z, w }),
        FieldResult::Missing => Ok(Vec4 { x, y, z, w: Fx { raw: FX_SCALE } }),
        FieldResult::Bad => Err(ObjError { line: line_no, kind: ObjErrorKind::BadNumber }),
    }
}

/// Parses a `vn` directive's fields.
fn parse_vn_line(text: &Vec<u8>, b: usize, le: usize, line_no: usize) -> (r: Result<
    Vec3,
    ObjError,
>)
    requires
        b <= le <= text@.len(),
    ensures
        r == spec_vn_line(text@, b as int, le as int, line_no as int),
        r matches Ok(v) ==> v.bounded(),
{
    let (f0, p0) = parse_field(text, b, le);
    let (f1, p1) = parse_field(text, p0, le);
    let (f2, _p2) = parse_field(text, p1, le);
    let x = match field_value(f0, line_no) {
        Ok(v) => v,
        Err(e) => {
            return Err(e);
        },
    };
    let y = match field_value(f1, line_no) {
        Ok(v) => v,
        Err(e) => {
            return Err(e);
        },
    };
    let z = match field_value(f2, line_no) {
        Ok(v) => v,
        Err(e) => {
            return Err(e);
        },
    };
    Ok(Vec3 { x, y, z })
}

/// Parses a `vt` directive's fields.
fn parse_vt_line(text: &Vec<u8>, b: usize, le: usize, line_no: usize) -> (r: Result<
    Vec3,
    ObjError,
>)
    requires
        b <= le <= text@.len(),
    ensures
        r == spec_vt_line(text@, b as int, le as int, line_no as int),
        r matches Ok(v) ==> v.bounded(),
{
    let (f0, p0) = parse_field(text, b, le);
    let (f1, p1) = parse_field(text, p0, le);
    let (f2, _p2) = parse_field(text, p1, le);
    let u = match field_value(f0, line_no) {
        Ok(v) => v,
        Err(e) => {
            return Err(e);
        },
    };
    let v = match field_value(f1, line_no) {
        Ok(v) => v,
        Err(e) => {
            return Err(e);
        },
    };
    match f2 {
        FieldResult::Value(w) => Ok(Vec3 { x: u, y: v, z: w }),
        FieldResult::Missing => Ok(Vec3 { x: u, y: v, z: Fx { raw: 0 } }),
        FieldResult::Bad => Err(ObjError { line: line_no, kind: ObjErrorKind::BadNumber }),
    }
}

/// Turns a field result into the value or the fitting error.
fn field_value(r: FieldResult, line: usize) -> (out: Result<Fx, ObjError>)
    ensures
        out matches Ok(v) ==> r == FieldResult::Value(v),
        r matches FieldResult::Value(v) ==> out == Ok::<Fx, ObjError>(v),
        out is Err <==> !(r is Value),
        r is Missing ==> out == Err::<Fx, ObjError>(
            ObjError { line, kind: ObjErrorKind::MissingField },
        ),
        r is Bad ==> out == Err::<Fx, ObjError>(ObjError { line, kind: ObjErrorKind::BadNumber }),
{
    match r {
        FieldResult::Value(v) => Ok(v),
        FieldResult::Missing => Err(ObjError { line, kind: ObjErrorKind::MissingField }),
        FieldResult::Bad => Err(ObjError { line, kind: ObjErrorKind::BadNumber }),
    }
}

/// One face corner slot `s[a..b)`: empty keeps the default index, a digit
/// run is a 1-based reference (0 is a fatal index error), anything else a
/// fatal number error.
pub open spec fn spec_slot(s: Seq<u8>, a: int, b: int) -> Result<Option<int>, ObjErrorKind> {
    if a >= b {
        Ok(None)
    } else if !(1 <= b - a <= 7 && all_digits(s, a, b)) {
        Err(ObjErrorKind::BadNumber)
    } else if digits_val(s, a, b) == 0 {
        Err(ObjErrorKind::BadIndex)
    } else {
        Ok(Some(digits_val(s, a, b) - 1))
    }
}

/// Parses one face corner slot.
fn parse_slot(text: &Vec<u8>, a: usize, b: usize, line_no: usize) -> (r: Result<
    Option<u32>,
    ObjError,
>)
    requires
        a <= b <= text@.len(),
    ensures
        r is Ok <==> spec_slot(text@, a as int, b as int) is Ok,
        r matches Ok(ro) ==> spec_slot(text@, a as int, b as int) matches Ok(vo) && (ro is None
            <==> vo is None) && (ro matches Some(rv) ==> vo == Some(rv as int)),
        spec_slot(text@, a as int, b as int) matches Err(k) ==> r == Err::<Option<u32>, ObjError>(
            ObjError { line: line_no, kind: k },
        ),
{
    if a == b {
        Ok(None)
    } else {
        match parse_index(text, a, b) {
            Some(v) => {
                if v == 0 {
                    Err(ObjError { line: line_no, kind: ObjErrorKind::BadIndex })
                } else {
                    Ok(Some(v - 1))
                }
            },
            None => Err(ObjError { line: line_no, kind: ObjErrorKind::BadNumber }),
        }
    }
}

/// The triple `t` with its `c`-th component replaced by `v`.
pub open spec fn upd3(t: (int, int, int), c: int, v: int) -> (int, int, int) {
    if c == 0 {
        (v, t.1, t.2)
    } else if c == 1 {
        (t.0, v, t.2)
    } else {
        (t.0, t.1, v)
    }
}

/// Parses the face corners in `[p, le)`, having read `corner` corners into
/// the vertex/uv/normal index triples so far: each corner token splits at
/// its slashes into up to three 1-based slots (vertex, uv, normal), an
/// empty slot keeping index 0 after the decrement; exactly 3 corners are
/// required, more are fatal. (The recursion guard only restates that the
/// token scan advances, making termination structural.)
pub open spec fn spec_face(
    s: Seq<u8>,
    p: int,
    le: int,
    corner: int,
    vx: (int, int, int),
    uv: (int, int, int),
    nm: (int, int, int),
) -> Result<((int, int, int), (int, int, int), (int, int, int)), ObjErrorKind>
    decreases le - p,
{
    let cs = ws_end(s, p, le);
    let ce = tk_end(s, cs, le);
    if cs >= ce {
        if corner == 3 {
            Ok((vx, uv, nm))
        } else {
            Err(ObjErrorKind::MissingField)
        }
    } else if corner >= 3 {
        Err(ObjErrorKind::TooManyVertices)
    } else {
        let s1 = slash_at(s, cs, ce);
        let p2 = if s1 < ce {
            s1 + 1
        } else {
            ce
        };
        let s2 = slash_at(s, p2, ce);
        let p3 = if s2 < ce {
            s2 + 1
        } else {
            ce
        };
        match spec_slot(s, cs, s1) {
            Err(k) => Err(k),
            Ok(v_slot) => match spec_slot(s, p2, s2) {
                Err(k) => Err(k),
                Ok(u_slot) => match spec_slot(s, p3, ce) {
                    Err(k) => Err(k),
                    Ok(n_slot) => {
                        let vx2 = match v_slot {
                            Some(v) => upd3(vx, corner, v),
                            None => vx,
                        };
                        let uv2 = match u_slot {
                            Some(v) => upd3(uv, corner, v),
                            None => uv,
                        };
                        let nm2 = match n_slot {
                            Some(v) => upd3(nm, corner, v),
                            None => nm,
                        };
                        if p < ce <= le {
                            spec_face(s, ce, le, corner + 1, vx2, uv2, nm2)
                        } else {
                            Err(ObjErrorKind::MissingField)
                        }
                    },
                },
            },
        }
    }
}

/// One parsed face: its vertex, uv and normal index triples, and the line
/// it came from.
pub type ObjFace = (((int, int, int), (int, int, int), (int, int, int)), int);

/// Parses one line against the accumulated lists: geometry directives
/// append to their lists, recognized non-geometry directives and blank
/// lines change nothing, and anything else is fatal at this line.
#[verifier::opaque]
pub open spec fn spec_obj_line(
    s: Seq<u8>,
    ls: int,
    le: int,
    ln: int,
    vs: Seq<Vec4>,
    ns: Seq<Vec3>,
    ts: Seq<Vec3>,
    fs: Seq<ObjFace>,
) -> Result<(Seq<Vec4>, Seq<Vec3>, Seq<Vec3>, Seq<ObjFace>), ObjError> {
    let a = ws_end(s, ls, le);
    let b = tk_end(s, a, le);
    if a >= b {
        Ok((vs, ns, ts, fs))
    } else if tok_ignored(s, a, b) {
        Ok((vs, ns, ts, fs))
    } else if tok_v(s, a, b) {
        match spec_v_line(s, b, le, ln) {
            Err(e) => Err(e),
            Ok(v) => Ok((vs.push(v), ns, ts, fs)),
        }
    } else if tok_vn(s, a, b) {
        match spec_vn_line(s, b, le, ln) {
            Err(e) => Err(e),
            Ok(n) => Ok((vs, ns.push(n), ts, fs)),
        }
    } else if tok_vt(s, a, b) {
        match spec_vt_line(s, b, le, ln) {
            Err(e) => Err(e),
            Ok(t) => Ok((vs, ns, ts.push(t), fs)),
        }
    } else if tok_f(s, a, b) {
        match spec_face(s, b, le, 0, (0, 0, 0), (0, 0, 0), (0, 0, 0)) {
            Err(k) => Err(ObjError { line: ln as usize, kind: k }),
            Ok(tr) => Ok((vs, ns, ts, fs.push((tr, ln)))),
        }
    } else {
        Err(ObjError { line: ln as usize, kind: ObjErrorKind::UnknownDirective })
    }
}

/// Parses the lines from position `i` onward against the accumulated
/// lists: the text splits at line feeds, and the first offending line, if
/// any, decides the error. (The recursion guard only restates that a line
/// consumes at least one byte, making termination structural.)
pub open spec fn spec_obj_lines(
    s: Seq<u8>,
    i: int,
    ln: int,
    vs: Seq<Vec4>,
    ns: Seq<Vec3>,
    ts: Seq<Vec3>,
    fs: Seq<ObjFace>,
) -> Result<(Seq<Vec4>, Seq<Vec3>, Seq<Vec3>, Seq<ObjFace>), ObjError>
    decreases s.len() - i,
{
    if i < 0 || i >= s.len() {
        Ok((vs, ns, ts, fs))
    } else {
        let le = nl_at(s, i);
        let nxt: int = if le < s.len() {
            le + 1
        } else {
            s.len() as int
        };
        match spec_obj_line(s, i, le, ln, vs, ns, ts, fs) {
            Err(e) => Err(e),
            Ok(acc) => if i < nxt <= s.len() {
                spec_obj_lines(s, nxt, ln + 1, acc.0, acc.1, acc.2, acc.3)
            } else {
                Ok((acc.0, acc.1, acc.2, acc.3))
            },
        }
    }
}

/// The whole text parsed from the start, with nothing accumulated yet.
pub open spec fn spec_parse_obj(s: Seq<u8>) -> Result<
    (Seq<Vec4>, Seq<Vec3>, Seq<Vec3>, Seq<ObjFace>),
    ObjError,
> {
    spec_obj_lines(s, 0, 0, Seq::empty(), Seq::empty(), Seq::empty(), Seq::empty())
}

/// The line of the first face whose vertex index triple references at or
/// past the vertex count, scanning from face `k` on.
pub open spec fn first_bad_face(fs: Seq<ObjFace>, nv: int, k: int) -> Option<int>
    decreases fs.len() - k,
{
    if k < 0 || k >= fs.len() {
        None
    } else if fs[k].0.0.0 >= nv || fs[k].0.0.1 >= nv || fs[k].0.0.2 >= nv {
        Some(fs[k].1)
    } else {
        first_bad_face(fs, nv, k + 1)
    }
}

/// Whether a stored triangle holds exactly the parsed face's index triples.
pub open spec fn tri_matches(t: PolygonData, f: ObjFace) -> bool {
    &&& t.vertex@[0] == f.0.0.0
    &&& t.vertex@[1] == f.0.0.1
    &&& t.vertex@[2] == f.0.0.2
    &&& t.uv_coord@[0] == f.0.1.0
    &&& t.uv_coord@[1] == f.0.1.1
    &&& t.uv_coord@[2] == f.0.1.2
    &&& t.normal@[0] == f.0.2.0
    &&& t.normal@[1] == f.0.2.1
    &&& t.normal@[2] == f.0.2.2
}

/// One failing line settles the whole parse.
proof fn lemma_step_err(
    s: Seq<u8>,
    ls: int,
    ln: int,
    vs: Seq<Vec4>,
    ns: Seq<Vec3>,
    ts: Seq<Vec3>,
    fs: Seq<ObjFace>,
    e: ObjError,
)
    requires
        0 <= ls < s.len(),
        spec_obj_line(s, ls, nl_at(s, ls), ln, vs, ns, ts, fs) == Err::<
            (Seq<Vec4>, Seq<Vec3>, Seq<Vec3>, Seq<ObjFace>),
            ObjError,
        >(e),
    ensures
        spec_obj_lines(s, ls, ln, vs, ns, ts, fs) == Err::<
            (Seq<Vec4>, Seq<Vec3>, Seq<Vec3>, Seq<ObjFace>),
            ObjError,
        >(e),
{
}

/// One parsed line advances the fold to the next line.
proof fn lemma_step_ok(
    s: Seq<u8>,
    ls: int,
    ln: int,
    vs: Seq<Vec4>,
    ns: Seq<Vec3>,
    ts: Seq<Vec3>,
    fs: Seq<ObjFace>,
    vs2: Seq<Vec4>,
    ns2: Seq<Vec3>,
    ts2: Seq<Vec3>,
    fs2: Seq<ObjFace>,
    nxt: int,
)
    requires
        0 <= ls < s.len(),
        spec_obj_line(s, ls, nl_at(s, ls), ln, vs, ns, ts, fs) == Ok::<
            (Seq<Vec4>, Seq<Vec3>, Seq<Vec3>, Seq<ObjFace>),
            ObjError,
        >((vs2, ns2, ts2, fs2)),
        nxt == (if nl_at(s, ls) < s.len() {
            nl_at(s, ls) + 1
        } else {
            s.len() as int
        }),
        ls < nxt <= s.len(),
    ensures
        spec_obj_lines(s, ls, ln, vs, ns, ts, fs) == spec_obj_lines(
            s,
            nxt,
            ln + 1,
            vs2,
            ns2,
            ts2,
            fs2,
        ),
{
}


/// Reading past the last corner token ends the face: three corners make a
/// triangle, fewer are fatal.
proof fn lemma_face_finish(
    s: Seq<u8>,
    p: int,
    le: int,
    corner: int,
    vx: (int, int, int),
    uv: (int, int, int),
    nm: (int, int, int),
    cs: int,
    ce: int,
)
    requires
        cs == ws_end(s, p, le),
        ce == tk_end(s, cs, le),
        cs >= ce,
    ensures
        corner == 3 ==> spec_face(s, p, le, corner, vx, uv, nm) == Ok::<
            ((int, int, int), (int, int, int), (int, int, int)),
            ObjErrorKind,
        >((vx, uv, nm)),
        corner != 3 ==> spec_face(s, p, le, corner, vx, uv, nm) == Err::<
            ((int, int, int), (int, int, int), (int, int, int)),
            ObjErrorKind,
        >(ObjErrorKind::MissingField),
{
}

/// A fourth corner token is fatal.
proof fn lemma_face_toomany(
    s: Seq<u8>,
    p: int,
    le: int,
    corner: int,
    vx: (int, int, int),
    uv: (int, int, int),
    nm: (int, int, int),
    cs: int,
    ce: int,
)
    requires
        cs == ws_end(s, p, le),
        ce == tk_end(s, cs, le),
        cs < ce,
        corner >= 3,
    ensures
        spec_face(s, p, le, corner, vx, uv, nm) == Err::<
            ((int, int, int), (int, int, int), (int, int, int)),
            ObjErrorKind,
        >(ObjErrorKind::TooManyVertices),
{
}

/// The first failing slot of a corner decides the face's error.
proof fn lemma_face_step_err(
    s: Seq<u8>,
    p: int,
    le: int,
    corner: int,
    vx: (int, int, int),
    uv: (int, int, int),
    nm: (int, int, int),
    cs: int,
    ce: int,
    s1: int,
    p2: int,
    s2: int,
    p3: int,
    k: ObjErrorKind,
)
    requires
        cs == ws_end(s, p, le),
        ce == tk_end(s, cs, le),
        cs < ce,
        0 <= corner < 3,
        s1 == slash_at(s, cs, ce),
        p2 == (if s1 < ce {
            s1 + 1
        } else {
            ce
        }),
        s2 == slash_at(s, p2, ce),
        p3 == (if s2 < ce {
            s2 + 1
        } else {
            ce
        }),
        spec_slot(s, cs, s1) == Err::<Option<int>, ObjErrorKind>(k) || (spec_slot(s, cs, s1) is Ok
            && spec_slot(s, p2, s2) == Err::<Option<int>, ObjErrorKind>(k)) || (spec_slot(
            s,
            cs,
            s1,
        ) is Ok && spec_slot(s, p2, s2) is Ok && spec_slot(s, p3, ce) == Err::<
            Option<int>,
            ObjErrorKind,
        >(k)),
    ensures
        spec_face(s, p, le, corner, vx, uv, nm) == Err::<
            ((int, int, int), (int, int, int), (int, int, int)),
            ObjErrorKind,
        >(k),
{
}

/// One fully parsed corner advances the face recursion.
proof fn lemma_face_step_ok(
    s: Seq<u8>,
    p: int,
    le: int,
    corner: int,
    vx: (int, int, int),
    uv: (int, int, int),
    nm: (int, int, int),
    cs: int,
    ce: int,
    s1: int,
    p2: int,
    s2: int,
    p3: int,
    va: Option<int>,
    ua: Option<int>,
    na: Option<int>,
)
    requires
        cs == ws_end(s, p, le),
        ce == tk_end(s, cs, le),
        cs < ce,
        0 <= corner < 3,
        s1 == slash_at(s, cs, ce),
        p2 == (if s1 < ce {
            s1 + 1
        } else {
            ce
        }),
        s2 == slash_at(s, p2, ce),
        p3 == (if s2 < ce {
            s2 + 1
        } else {
            ce
        }),
        spec_slot(s, cs, s1) == Ok::<Option<int>, ObjErrorKind>(va),
        spec_slot(s, p2, s2) == Ok::<Option<int>, ObjErrorKind>(ua),
        spec_slot(s, p3, ce) == Ok::<Option<int>, ObjErrorKind>(na),
        p < ce <= le,
    ensures
        spec_face(s, p, le, corner, vx, uv, nm) == spec_face(
            s,
            ce,
            le,
            corner + 1,
            (match va {
                Some(v) => upd3(vx, corner, v),
                None => vx,
            }),
            (match ua {
                Some(v) => upd3(uv, corner, v),
                None => uv,
            }),
            (match na {
                Some(v) => upd3(nm, corner, v),
                None => nm,
            }),
        ),
{
}

/// Parses a line-oriented model text: `v x y z [w]` vertices (w defaults
/// to 1), `vn x y z` normals, `vt u v [w]` texture coordinates (w defaults
/// to 0), and `f i[/uv[/n]] ...` faces with 1-based indices (an empty slot
/// reads as index 0 after the decrement); `#`, `mtllib`, `o`, `usemtl` and
/// `s` lines are ignored; anything else is a fatal error carrying the line
/// number. Faces must have exactly 3 corners. After the whole text is read,
/// the first face whose vertex indices do not all reference the vertex list
/// is a fatal index error at its line, so a successful parse returns a
/// well-formed model holding exactly the parsed directives in file order.
#[verifier::rlimit(60)]
#[verifier::spinoff_prover]
pub fn load_obj_file(text: &Vec<u8>) -> (r: Result<Model, ObjError>)
    ensures
        ({
            let p = spec_parse_obj(text@);
            &&& (p matches Err(e) ==> r == Err::<Model, ObjError>(e))
            &&& (p matches Ok(q) ==> {
                let bad = first_bad_face(q.3, q.0.len() as int, 0);
                &&& (bad matches Some(l) ==> r == Err::<Model, ObjError>(
                    ObjError { line: l as usize, kind: ObjErrorKind::BadIndex },
                ))
                &&& (bad is None ==> (r matches Ok(m) && {
                    &&& m.vertices@ == q.0
                    &&& m.vertex_normals@ == q.1
                    &&& m.uv_map@ == q.2
                    &&& m.triangles@.len() == q.3.len()
                    &&& forall|k: int|
                        0 <= k < q.3.len() ==> tri_matches(#[trigger] m.triangles@[k], q.3[k])
                }))
            })
        }),
        r matches Ok(m) ==> m.wf() && (forall|u: int|
            0 <= u < m.uv_map@.len() ==> (#[trigger] m.uv_map@[u]).bounded()),
{
    let ghost s = text@;
    let mut vertices: Vec<Vec4> = Vec::new();
    let mut vertex_normals: Vec<Vec3> = Vec::new();
    let mut v_texture_coords: Vec<Vec3> = Vec::new();
    let mut triangles: Vec<PolygonData> = Vec::new();
    let mut face_lines: Vec<usize> = Vec::new();
    let ghost mut faces_spec: Seq<ObjFace> = Seq::empty();
    let len = text.len();
    let mut ls: usize = 0;
    let mut line_no: usize = 0;
    while ls < len
        invariant
            s == text@,
            ls <= len,
            len == s.len(),
            line_no <= ls,
            spec_parse_obj(s) == spec_obj_lines(
                s,
                ls as int,
                line_no as int,
                vertices@,
                vertex_normals@,
                v_texture_coords@,
                faces_spec,
            ),
            triangles@.len() == faces_spec.len(),
            face_lines@.len() == faces_spec.len(),
            forall|k: int|
                0 <= k < faces_spec.len() ==> tri_matches(#[trigger] triangles@[k], faces_spec[k]),
            forall|k: int|
                0 <= k < faces_spec.len() ==> (#[trigger] faces_spec[k]).1 == face_lines@[k],
            forall|v: int| 0 <= v < vertices@.len() ==> (#[trigger] vertices@[v]).bounded(),
            forall|u: int|
                0 <= u < v_texture_coords@.len() ==> (#[trigger] v_texture_coords@[u]).bounded(),
        decreases len - ls,
    {
        let le = find_newline(text, ls);
        let next = if le < len {
            le + 1
        } else {
            len
        };
        let ghost vs0 = vertices@;
        let ghost ns0 = vertex_normals@;
        let ghost ts0 = v_texture_coords@;
        let ghost fs0 = faces_spec;
        let ts = skip_spaces(text, ls, le);
        let te = token_end(text, ts, le);
        if ts < te {
            let tlen = te - ts;
            // the directive words, as bytes: "#", "mtllib", "o", "usemtl",
            // "s", then "v", "vn", "vt", "f"
            let ignored = (tlen == 1 && text[ts] == 35) || (tlen == 6 && text[ts] == 109
                && text[ts + 1] == 116 && text[ts + 2] == 108 && text[ts + 3] == 108 && text[ts
                + 4] == 105 && text[ts + 5] == 98) || (tlen == 1 && text[ts] == 111) || (tlen == 6
                && text[ts] == 117 && text[ts + 1] == 115 && text[ts + 2] == 101 && text[ts + 3]
                == 109 && text[ts + 4] == 116 && text[ts + 5] == 108) || (tlen == 1 && text[ts]
                == 115);
            proof {
                assert(ignored == tok_ignored(s, ts as int, te as int));
            }
            if ignored {
                // a recognized non-geometry directive: skipped
                proof {
                    reveal(spec_obj_line);
                    assert(spec_obj_line(s, ls as int, le as int, line_no as int, vs0, ns0, ts0, fs0)
                        == Ok::<(Seq<Vec4>, Seq<Vec3>, Seq<Vec3>, Seq<ObjFace>), ObjError>(
                        (vertices@, vertex_normals@, v_texture_coords@, faces_spec),
                    ));
                }
            } else if tlen == 1 && text[ts] == 118 {
                // "v"
                match parse_v_line(text, te, le, line_no) {
                    Ok(v) => {
                        vertices.push(v);
                        proof {
                            reveal(spec_obj_line);
                            assert(spec_obj_line(s, ls as int, le as int, line_no as int, vs0, ns0, ts0, fs0)
                                == Ok::<(Seq<Vec4>, Seq<Vec3>, Seq<Vec3>, Seq<ObjFace>), ObjError>(
                                (vertices@, vertex_normals@, v_texture_coords@, faces_spec),
                            ));
                        }
                    },
                    Err(e) => {
                        proof {
                            reveal(spec_obj_line);
                            assert(spec_obj_line(s, ls as int, le as int, line_no as int, vs0, ns0, ts0, fs0)
                                == Err::<(Seq<Vec4>, Seq<Vec3>, Seq<Vec3>, Seq<ObjFace>), ObjError>(e));
                            lemma_step_err(s, ls as int, line_no as int, vs0, ns0, ts0, fs0, e);
                        }
                        return Err(e);
                    },
                }
            } else if tlen == 2 && text[ts] == 118 && text[ts + 1] == 110 {
                // "vn"
                match parse_vn_line(text, te, le, line_no) {
                    Ok(n) => {
                        vertex_normals.push(n);
                        proof {
                            reveal(spec_obj_line);
                            assert(spec_obj_line(s, ls as int, le as int, line_no as int, vs0, ns0, ts0, fs0)
                                == Ok::<(Seq<Vec4>, Seq<Vec3>, Seq<Vec3>, Seq<ObjFace>), ObjError>(
                                (vertices@, vertex_normals@, v_texture_coords@, faces_spec),
                            ));
                        }
                    },
                    Err(e) => {
                        proof {
                            reveal(spec_obj_line);
                            assert(spec_obj_line(s, ls as int, le as int, line_no as int, vs0, ns0, ts0, fs0)
                                == Err::<(Seq<Vec4>, Seq<Vec3>, Seq<Vec3>, Seq<ObjFace>), ObjError>(e));
                            lemma_step_err(s, ls as int, line_no as int, vs0, ns0, ts0, fs0, e);
                        }
                        return Err(e);
                    },
                }
            } else if tlen == 2 && text[ts] == 118 && text[ts + 1] == 116 {
                // "vt"
                match parse_vt_line(text, te, le, line_no) {
                    Ok(t) => {
                        v_texture_coords.push(t);
                        proof {
                            reveal(spec_obj_line);
                            assert(spec_obj_line(s, ls as int, le as int, line_no as int, vs0, ns0, ts0, fs0)
                                == Ok::<(Seq<Vec4>, Seq<Vec3>, Seq<Vec3>, Seq<ObjFace>), ObjError>(
                                (vertices@, vertex_normals@, v_texture_coords@, faces_spec),
                            ));
                        }
                    },
                    Err(e) => {
                        proof {
                            reveal(spec_obj_line);
                            assert(spec_obj_line(s, ls as int, le as int, line_no as int, vs0, ns0, ts0, fs0)
                                == Err::<(Seq<Vec4>, Seq<Vec3>, Seq<Vec3>, Seq<ObjFace>), ObjError>(e));
                            lemma_step_err(s, ls as int, line_no as int, vs0, ns0, ts0, fs0, e);
                        }
                        return Err(e);
                    },
                }
            } else if tlen == 1 && text[ts] == 102 {
                // "f"
                let mut vertex: [usize; 3] = [0, 0, 0];
                let mut normal: [usize; 3] = [0, 0, 0];
                let mut uv_coord: [usize; 3] = [0, 0, 0];
                let mut corner: usize = 0;
                let mut p = te;
                loop
                    invariant_except_break
                        s == text@,
                        te <= p <= le <= s.len(),
                        ls < s.len(),
                        le == nl_at(s, ls as int),
                        ws_end(s, ls as int, le as int) == ts as int,
                        tk_end(s, ts as int, le as int) == te as int,
                        ts < te,
                        tok_f(s, ts as int, te as int),
                        spec_parse_obj(s) == spec_obj_lines(
                            s,
                            ls as int,
                            line_no as int,
                            vs0,
                            ns0,
                            ts0,
                            fs0,
                        ),
                        corner <= 3,
                        spec_face(s, te as int, le as int, 0, (0, 0, 0), (0, 0, 0), (0, 0, 0))
                            == spec_face(
                            s,
                            p as int,
                            le as int,
                            corner as int,
                            (vertex@[0] as int, vertex@[1] as int, vertex@[2] as int),
                            (uv_coord@[0] as int, uv_coord@[1] as int, uv_coord@[2] as int),
                            (normal@[0] as int, normal@[1] as int, normal@[2] as int),
                        ),
                    ensures
                        spec_face(s, te as int, le as int, 0, (0, 0, 0), (0, 0, 0), (0, 0, 0))
                            == Ok::<
                            ((int, int, int), (int, int, int), (int, int, int)),
                            ObjErrorKind,
                        >(
                            (
                                (vertex@[0] as int, vertex@[1] as int, vertex@[2] as int),
                                (uv_coord@[0] as int, uv_coord@[1] as int, uv_coord@[2] as int),
                                (normal@[0] as int, normal@[1] as int, normal@[2] as int),
                            ),
                        ),
                    decreases le - p,
                {
                    let ghost ovx = (vertex@[0] as int, vertex@[1] as int, vertex@[2] as int);
                    let ghost ouv = (uv_coord@[0] as int, uv_coord@[1] as int, uv_coord@[2] as int);
                    let ghost onm = (normal@[0] as int, normal@[1] as int, normal@[2] as int);
                    let cs = skip_spaces(text, p, le);
                    let ce = token_end(text, cs, le);
                    if cs == ce {
                        if corner == 3 {
                            proof {
                                lemma_face_finish(
                                    s,
                                    p as int,
                                    le as int,
                                    corner as int,
                                    ovx,
                                    ouv,
                                    onm,
                                    cs as int,
                                    ce as int,
                                );
                            }
                            break;
                        }
                        let e = ObjError { line: line_no, kind: ObjErrorKind::MissingField };
                        proof {
                            reveal(spec_obj_line);
                            lemma_face_finish(
                                s,
                                p as int,
                                le as int,
                                corner as int,
                                ovx,
                                ouv,
                                onm,
                                cs as int,
                                ce as int,
                            );
                            assert(spec_obj_line(s, ls as int, le as int, line_no as int, vs0, ns0, ts0, fs0)
                                == Err::<(Seq<Vec4>, Seq<Vec3>, Seq<Vec3>, Seq<ObjFace>), ObjError>(e));
                            lemma_step_err(s, ls as int, line_no as int, vs0, ns0, ts0, fs0, e);
                        }
                        return Err(e);
                    }
                    if corner >= 3 {
                        let e = ObjError { line: line_no, kind: ObjErrorKind::TooManyVertices };
                        proof {
                            reveal(spec_obj_line);
                            lemma_face_toomany(
                                s,
                                p as int,
                                le as int,
                                corner as int,
                                ovx,
                                ouv,
                                onm,
                                cs as int,
                                ce as int,
                            );
                            assert(spec_obj_line(s, ls as int, le as int, line_no as int, vs0, ns0, ts0, fs0)
                                == Err::<(Seq<Vec4>, Seq<Vec3>, Seq<Vec3>, Seq<ObjFace>), ObjError>(e));
                            lemma_step_err(s, ls as int, line_no as int, vs0, ns0, ts0, fs0, e);
                        }
                        return Err(e);
                    }
                    let s1 = find_slash(text, cs, ce);
                    let slot2 = if s1 < ce {
                        s1 + 1
                    } else {
                        ce
                    };
                    let s2 = find_slash(text, slot2, ce);
                    let slot3 = if s2 < ce {
                        s2 + 1
                    } else {
                        ce
                    };
                    let v_slot = match parse_slot(text, cs, s1, line_no) {
                        Ok(v) => v,
                        Err(e) => {
                            proof {
                                reveal(spec_obj_line);
                                lemma_face_step_err(
                                    s,
                                    p as int,
                                    le as int,
                                    corner as int,
                                    ovx,
                                    ouv,
                                    onm,
                                    cs as int,
                                    ce as int,
                                    s1 as int,
                                    slot2 as int,
                                    s2 as int,
                                    slot3 as int,
                                    e.kind,
                                );
                                assert(spec_obj_line(s, ls as int, le as int, line_no as int, vs0, ns0, ts0, fs0)
                                    == Err::<(Seq<Vec4>, Seq<Vec3>, Seq<Vec3>, Seq<ObjFace>), ObjError>(e));
                                lemma_step_err(s, ls as int, line_no as int, vs0, ns0, ts0, fs0, e);
                            }
                            return Err(e);
                        },
                    };
                    let u_slot = match parse_slot(text, slot2, s2, line_no) {
                        Ok(v) => v,
                        Err(e) => {
                            proof {
                                reveal(spec_obj_line);
                                lemma_face_step_err(
                                    s,
                                    p as int,
                                    le as int,
                                    corner as int,
                                    ovx,
                                    ouv,
                                    onm,
                                    cs as int,
                                    ce as int,
                                    s1 as int,
                                    slot2 as int,
                                    s2 as int,
                                    slot3 as int,
                                    e.kind,
                                );
                                assert(spec_obj_line(s, ls as int, le as int, line_no as int, vs0, ns0, ts0, fs0)
                                    == Err::<(Seq<Vec4>, Seq<Vec3>, Seq<Vec3>, Seq<ObjFace>), ObjError>(e));
                                lemma_step_err(s, ls as int, line_no as int, vs0, ns0, ts0, fs0, e);
                            }
                            return Err(e);
                        },
                    };
                    let n_slot = match parse_slot(text, slot3, ce, line_no) {
                        Ok(v) => v,
                        Err(e) => {
                            proof {
                                reveal(spec_obj_line);
                                lemma_face_step_err(
                                    s,
                                    p as int,
                                    le as int,
                                    corner as int,
                                    ovx,
                                    ouv,
                                    onm,
                                    cs as int,
                                    ce as int,
                                    s1 as int,
                                    slot2 as int,
                                    s2 as int,
                                    slot3 as int,
                                    e.kind,
                                );
                                assert(spec_obj_line(s, ls as int, le as int, line_no as int, vs0, ns0, ts0, fs0)
                                    == Err::<(Seq<Vec4>, Seq<Vec3>, Seq<Vec3>, Seq<ObjFace>), ObjError>(e));
                                lemma_step_err(s, ls as int, line_no as int, vs0, ns0, ts0, fs0, e);
                            }
                            return Err(e);
                        },
                    };
                    let ghost va = match spec_slot(s, cs as int, s1 as int) {
                        Ok(o) => o,
                        Err(_) => None,
                    };
                    let ghost ua = match spec_slot(s, slot2 as int, s2 as int) {
                        Ok(o) => o,
                        Err(_) => None,
                    };
                    let ghost na = match spec_slot(s, slot3 as int, ce as int) {
                        Ok(o) => o,
                        Err(_) => None,
                    };
                    if let Some(v) = v_slot {
                        vertex[corner] = v as usize;
                    }
                    if let Some(v) = u_slot {
                        uv_coord[corner] = v as usize;
                    }
                    if let Some(v) = n_slot {
                        normal[corner] = v as usize;
                    }
                    proof {
                        assert((vertex@[0] as int, vertex@[1] as int, vertex@[2] as int) == (
                        match va {
                            Some(v) => upd3(ovx, corner as int, v),
                            None => ovx,
                        }));
                        assert((uv_coord@[0] as int, uv_coord@[1] as int, uv_coord@[2] as int) == (
                        match ua {
                            Some(v) => upd3(ouv, corner as int, v),
                            None => ouv,
                        }));
                        assert((normal@[0] as int, normal@[1] as int, normal@[2] as int) == (
                        match na {
                            Some(v) => upd3(onm, corner as int, v),
                            None => onm,
                        }));
                        lemma_face_step_ok(
                            s,
                            p as int,
                            le as int,
                            corner as int,
                            ovx,
                            ouv,
                            onm,
                            cs as int,
                            ce as int,
                            s1 as int,
                            slot2 as int,
                            s2 as int,
                            slot3 as int,
                            va,
                            ua,
                            na,
                        );
                    }
                    corner += 1;
                    p = ce;
                }
                triangles.push(PolygonData { vertex, normal, uv_coord });
                face_lines.push(line_no);
                proof {
                    reveal(spec_obj_line);
                    faces_spec = faces_spec.push(
                        (
                            (
                                (vertex@[0] as int, vertex@[1] as int, vertex@[2] as int),
                                (uv_coord@[0] as int, uv_coord@[1] as int, uv_coord@[2] as int),
                                (normal@[0] as int, normal@[1] as int, normal@[2] as int),
                            ),
                            line_no as int,
                        ),
                    );
                    assert(spec_obj_line(s, ls as int, le as int, line_no as int, vs0, ns0, ts0, fs0)
                        == Ok::<(Seq<Vec4>, Seq<Vec3>, Seq<Vec3>, Seq<ObjFace>), ObjError>(
                        (vertices@, vertex_normals@, v_texture_coords@, faces_spec),
                    ));
                }
            } else {
                let e = ObjError { line: line_no, kind: ObjErrorKind::UnknownDirective };
                proof {
                    reveal(spec_obj_line);
                    assert(spec_obj_line(s, ls as int, le as int, line_no as int, vs0, ns0, ts0, fs0)
                        == Err::<(Seq<Vec4>, Seq<Vec3>, Seq<Vec3>, Seq<ObjFace>), ObjError>(e));
                    lemma_step_err(s, ls as int, line_no as int, vs0, ns0, ts0, fs0, e);
                }
                return Err(e);
            }
        } else {
            // a blank line changes nothing
            proof {
                reveal(spec_obj_line);
                assert(spec_obj_line(s, ls as int, le as int, line_no as int, vs0, ns0, ts0, fs0)
                    == Ok::<(Seq<Vec4>, Seq<Vec3>, Seq<Vec3>, Seq<ObjFace>), ObjError>(
                    (vertices@, vertex_normals@, v_texture_coords@, faces_spec),
                ));
            }
        }
        proof {
            assert(le as int == nl_at(s, ls as int));
            assert(spec_obj_line(s, ls as int, le as int, line_no as int, vs0, ns0, ts0, fs0)
                == Ok::<(Seq<Vec4>, Seq<Vec3>, Seq<Vec3>, Seq<ObjFace>), ObjError>(
                (vertices@, vertex_normals@, v_texture_coords@, faces_spec),
            ));
            lemma_step_ok(
                s,
                ls as int,
                line_no as int,
                vs0,
                ns0,
                ts0,
                fs0,
                vertices@,
                vertex_normals@,
                v_texture_coords@,
                faces_spec,
                next as int,
            );
        }
        line_no += 1;
        ls = next;
    }
    proof {
        assert(spec_parse_obj(s) == Ok::<(Seq<Vec4>, Seq<Vec3>, Seq<Vec3>, Seq<ObjFace>), ObjError>(
            (vertices@, vertex_normals@, v_texture_coords@, faces_spec),
        ));
    }
    // validate every face's vertex references against the finished list
    let nv = vertices.len();
    let tn = triangles.len();
    let mut k: usize = 0;
    while k < tn
        invariant
            s == text@,
            spec_parse_obj(s) == Ok::<(Seq<Vec4>, Seq<Vec3>, Seq<Vec3>, Seq<ObjFace>), ObjError>(
                (vertices@, vertex_normals@, v_texture_coords@, faces_spec),
            ),
            tn == triangles@.len(),
            tn == faces_spec.len(),
            tn == face_lines@.len(),
            nv == vertices@.len(),
            k <= tn,
            forall|j: int|
                0 <= j < faces_spec.len() ==> tri_matches(#[trigger] triangles@[j], faces_spec[j]),
            forall|j: int|
                0 <= j < faces_spec.len() ==> (#[trigger] faces_spec[j]).1 == face_lines@[j],
            first_bad_face(faces_spec, nv as int, 0) == first_bad_face(
                faces_spec,
                nv as int,
                k as int,
            ),
        decreases tn - k,
    {
        let t = &triangles[k];
        if t.vertex[0] >= nv || t.vertex[1] >= nv || t.vertex[2] >= nv {
            proof {
                assert(first_bad_face(faces_spec, nv as int, k as int) == Some(
                    face_lines@[k as int] as int,
                ));
            }
            return Err(ObjError { line: face_lines[k], kind: ObjErrorKind::BadIndex });
        }
        k += 1;
    }
    proof {
        assert(first_bad_face(faces_spec, nv as int, 0) is None);
        assert forall|j: int| 0 <= j < triangles@.len() implies {
            &&& (#[trigger] triangles@[j]).vertex@[0] < vertices@.len()
            &&& triangles@[j].vertex@[1] < vertices@.len()
            &&& triangles@[j].vertex@[2] < vertices@.len()
        } by {
            lemma_no_bad_face_in_range(faces_spec, nv as int, 0, j);
        }
    }
    Ok(Model { vertices, uv_map: v_texture_coords, vertex_normals, triangles })
}

/// When no face fails the index scan, every face's vertex indices are below
/// the vertex count.
proof fn lemma_no_bad_face_in_range(fs: Seq<ObjFace>, nv: int, k: int, j: int)
    requires
        first_bad_face(fs, nv, k) is None,
        0 <= k <= j < fs.len(),
    ensures
        fs[j].0.0.0 < nv && fs[j].0.0.1 < nv && fs[j].0.0.2 < nv,
    decreases j - k,
{
    if k < j {
        lemma_no_bad_face_in_range(fs, nv, k + 1, j);
    }
}

} // verus!
