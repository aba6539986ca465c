//! The byte layout of the public query result: a row count and a column
//! count, then each column as a type tag followed by its cells — 32
//! little-endian bytes per field element, length-prefixed UTF-8 per string.
//! Reading the layout back accepts exactly well-formed framings: a cell that
//! is not a canonical field element, a bad tag, a bad length or trailing
//! bytes are all rejected, and whatever is accepted re-serialises to the
//! very input.

use crate::query_proof::{ProvableColumn, ProvableQueryResult};
use crate::scalar::Scalar;
use vstd::prelude::*;
use vstd::string::StringSliceAdditionalSpecFns;
use vstd::utf8::encode_utf8;

verus! {

/// Eight little-endian bytes of a 64-bit value.
pub open spec fn spec_u64_le(x: u64) -> Seq<u8> {
    seq![
        (x % 0x100) as u8,
        ((x / 0x100) % 0x100) as u8,
        ((x / 0x10000) % 0x100) as u8,
        ((x / 0x1000000) % 0x100) as u8,
        ((x / 0x100000000) % 0x100) as u8,
        ((x / 0x10000000000) % 0x100) as u8,
        ((x / 0x1000000000000) % 0x100) as u8,
        ((x / 0x100000000000000) % 0x100) as u8,
    ]
}

/// The 32 little-endian bytes of a field element, limb by limb.
pub open spec fn spec_scalar_le(s: Scalar) -> Seq<u8> {
    spec_u64_le(s.d0) + spec_u64_le(s.d1) + spec_u64_le(s.d2) + spec_u64_le(s.d3)
}

/// Appends the eight little-endian bytes of `x`.
fn write_u64(out: &mut Vec<u8>, x: u64)
    ensures
        final(out)@ == old(out)@ + spec_u64_le(x),
{
    out.push((x % 0x100) as u8);
    out.push(((x / 0x100) % 0x100) as u8);
    out.push(((x / 0x10000) % 0x100) as u8);
    out.push(((x / 0x1000000) % 0x100) as u8);
    out.push(((x / 0x100000000) % 0x100) as u8);
    out.push(((x / 0x10000000000) % 0x100) as u8);
    out.push(((x / 0x1000000000000) % 0x100) as u8);
    out.push(((x / 0x100000000000000) % 0x100) as u8);
    proof {
        assert(out@ =~= old(out)@ + spec_u64_le(x));
    }
}

/// The value whose little-endian digits the eight bytes are.
#[verifier::rlimit(60)]
proof fn lemma_u64_digits(x: u64, b: Seq<u8>)
    requires
        b.len() == 8,
        x == b[0] + b[1] * 0x100 + b[2] * 0x10000 + b[3] * 0x1000000 + b[4] * 0x100000000
            + b[5] * 0x10000000000 + b[6] * 0x1000000000000 + b[7] * 0x100000000000000,
    ensures
        spec_u64_le(x) == b,
{
    let d: int = 0x100;
    let q1: int = b[1] + b[2] * d + b[3] * (d * d) + b[4] * (d * d * d)
        + b[5] * ((d * d) * (d * d)) + b[6] * (((d * d) * (d * d)) * d)
        + b[7] * ((((d * d) * (d * d)) * d) * d);
    assert(x == q1 * 0x100 + b[0]) by (nonlinear_arith)
        requires
            x == b[0] + b[1] * 0x100 + b[2] * 0x10000 + b[3] * 0x1000000 + b[4] * 0x100000000
                + b[5] * 0x10000000000 + b[6] * 0x1000000000000 + b[7] * 0x100000000000000,
            q1 == b[1] + b[2] * 0x100 + b[3] * (0x100 * 0x100) + b[4] * (0x100 * 0x100 * 0x100)
                + b[5] * ((0x100 * 0x100) * (0x100 * 0x100))
                + b[6] * (((0x100 * 0x100) * (0x100 * 0x100)) * 0x100)
                + b[7] * ((((0x100 * 0x100) * (0x100 * 0x100)) * 0x100) * 0x100);
    lemma_digit_step(x as int, q1, b[0] as int);
    assert((x / 0x100) as int == q1);
    let q2: int = b[2] + b[3] * d + b[4] * (d * d) + b[5] * ((d * d) * d)
        + b[6] * (((d * d) * d) * d) + b[7] * ((((d * d) * d) * d) * d);
    assert(q1 == q2 * 0x100 + b[1]) by (nonlinear_arith)
        requires
            q1 == b[1] + b[2] * 0x100 + b[3] * (0x100 * 0x100) + b[4] * (0x100 * 0x100 * 0x100)
                + b[5] * ((0x100 * 0x100) * (0x100 * 0x100))
                + b[6] * (((0x100 * 0x100) * (0x100 * 0x100)) * 0x100)
                + b[7] * ((((0x100 * 0x100) * (0x100 * 0x100)) * 0x100) * 0x100),
            q2 == b[2] + b[3] * 0x100 + b[4] * (0x100 * 0x100) + b[5] * ((0x100 * 0x100) * 0x100)
                + b[6] * (((0x100 * 0x100) * 0x100) * 0x100)
                + b[7] * ((((0x100 * 0x100) * 0x100) * 0x100) * 0x100);
    lemma_digit_step(q1, q2, b[1] as int);
    let q3: int = b[3] + b[4] * d + b[5] * (d * d) + b[6] * ((d * d) * d)
        + b[7] * (((d * d) * d) * d);
    assert(q2 == q3 * 0x100 + b[2]) by (nonlinear_arith)
        requires
            q2 == b[2] + b[3] * 0x100 + b[4] * (0x100 * 0x100) + b[5] * ((0x100 * 0x100) * 0x100)
                + b[6] * (((0x100 * 0x100) * 0x100) * 0x100)
                + b[7] * ((((0x100 * 0x100) * 0x100) * 0x100) * 0x100),
            q3 == b[3] + b[4] * 0x100 + b[5] * (0x100 * 0x100) + b[6] * ((0x100 * 0x100) * 0x100)
                + b[7] * (((0x100 * 0x100) * 0x100) * 0x100);
    lemma_digit_step(q2, q3, b[2] as int);
    let q4: int = b[4] + b[5] * d + b[6] * (d * d) + b[7] * ((d * d) * d);
    assert(q3 == q4 * 0x100 + b[3]) by (nonlinear_arith)
        requires
            q3 == b[3] + b[4] * 0x100 + b[5] * (0x100 * 0x100) + b[6] * ((0x100 * 0x100) * 0x100)
                + b[7] * (((0x100 * 0x100) * 0x100) * 0x100),
            q4 == b[4] + b[5] * 0x100 + b[6] * (0x100 * 0x100) + b[7] * ((0x100 * 0x100) * 0x100);
    lemma_digit_step(q3, q4, b[3] as int);
    let q5: int = b[5] + b[6] * d + b[7] * (d * d);
    assert(q4 == q5 * 0x100 + b[4]) by (nonlinear_arith)
        requires
            q4 == b[4] + b[5] * 0x100 + b[6] * (0x100 * 0x100) + b[7] * ((0x100 * 0x100) * 0x100),
            q5 == b[5] + b[6] * 0x100 + b[7] * (0x100 * 0x100);
    lemma_digit_step(q4, q5, b[4] as int);
    let q6: int = b[6] + b[7] * d;
    assert(q5 == q6 * d + b[5]);
    lemma_digit_step(q5, q6, b[5] as int);
    let q7: int = b[7] as int;
    assert(q6 == q7 * d + b[6]);
    lemma_digit_step(q6, q7, b[6] as int);
    assert(q7 == 0 * d + b[7]);
    lemma_digit_step(q7, 0int, b[7] as int);
    assert(spec_u64_le(x) =~= b);
}

/// One base-256 digit split: the remainder is the digit, the quotient the rest.
proof fn lemma_digit_step(v: int, q: int, r: int)
    requires
        v == q * 0x100 + r,
        0 <= r < 0x100,
    ensures
        v % 0x100 == r,
        v / 0x100 == q,
{
    vstd::arithmetic::div_mod::lemma_fundamental_div_mod_converse_mod(v, 0x100, q, r);
    vstd::arithmetic::div_mod::lemma_fundamental_div_mod_converse_div(v, 0x100, q, r);
}

/// Reads eight little-endian bytes at the cursor as a 64-bit value.
fn read_u64(b: &[u8], at: &mut usize) -> (r: Option<u64>)
    requires
        *old(at) <= b@.len(),
    ensures
        r matches Some(x) ==> *old(at) + 8 <= b@.len() && *final(at) == *old(at) + 8
            && spec_u64_le(x) == b@.subrange(*old(at) as int, *final(at) as int),
        r is None ==> *final(at) == *old(at),
    {
    if b.len() - *at < 8 {
        return None;
    }
    let i = *at;
    let x: u64 = b[i] as u64 + (b[i + 1] as u64) * 0x100 + (b[i + 2] as u64) * 0x10000
        + (b[i + 3] as u64) * 0x1000000 + (b[i + 4] as u64) * 0x100000000
        + (b[i + 5] as u64) * 0x10000000000 + (b[i + 6] as u64) * 0x1000000000000
        + (b[i + 7] as u64) * 0x100000000000000;
    *at = i + 8;
    proof {
        lemma_u64_digits(x, b@.subrange(i as int, i + 8int));
    }
    Some(x)
}

/// Appends the 32 little-endian bytes of a field element.
fn write_scalar(out: &mut Vec<u8>, s: &Scalar)
    ensures
        final(out)@ == old(out)@ + spec_scalar_le(*s),
{
    write_u64(out, s.d0);
    write_u64(out, s.d1);
    write_u64(out, s.d2);
    write_u64(out, s.d3);
    proof {
        assert(out@ =~= old(out)@ + spec_scalar_le(*s));
    }
}

/// Reads 32 little-endian bytes at the cursor as a canonical field element;
/// a value at or above the group order is rejected.
fn read_scalar(b: &[u8], at: &mut usize) -> (r: Option<Scalar>)
    requires
        *old(at) <= b@.len(),
    ensures
        r matches Some(s) ==> *old(at) + 32 <= b@.len() && *final(at) == *old(at) + 32
            && s.is_canonical()
            && spec_scalar_le(s) == b@.subrange(*old(at) as int, *final(at) as int),
        r is None ==> *final(at) <= b@.len(),
    {
    let d0 = match read_u64(b, at) {
        Some(x) => x,
        None => {
            return None;
        },
    };
    let d1 = match read_u64(b, at) {
        Some(x) => x,
        None => {
            return None;
        },
    };
    let d2 = match read_u64(b, at) {
        Some(x) => x,
        None => {
            return None;
        },
    };
    let d3 = match read_u64(b, at) {
        Some(x) => x,
        None => {
            return None;
        },
    };
    let s = Scalar { d0, d1, d2, d3 };
    if !s.check_canonical() {
        return None;
    }
    proof {
        assert(spec_scalar_le(s) =~= b@.subrange(*old(at) as int, *old(at) + 32));
    }
    Some(s)
}


/// The bytes of a run of field cells, in order.
pub open spec fn spec_scalars_bytes(v: Seq<Scalar>) -> Seq<u8>
    decreases v.len(),
{
    if v.len() == 0 {
        Seq::empty()
    } else {
        spec_scalars_bytes(v.drop_last()) + spec_scalar_le(v.last())
    }
}

/// The bytes of a run of text cells: each length-prefixed UTF-8.
pub open spec fn spec_strings_bytes(v: Seq<Seq<char>>) -> Seq<u8>
    decreases v.len(),
{
    if v.len() == 0 {
        Seq::empty()
    } else {
        spec_strings_bytes(v.drop_last())
            + spec_u64_le((encode_utf8(v.last()).len() as usize) as u64)
            + encode_utf8(v.last())
    }
}

/// The bytes of one published column: its type tag, then its cells.
pub open spec fn spec_column_bytes(c: ProvableColumn) -> Seq<u8> {
    match c {
        ProvableColumn::Scalars(v) => seq![0u8] + spec_scalars_bytes(v@),
        ProvableColumn::Strings(v) => seq![1u8] + spec_strings_bytes(v.deep_view()),
    }
}

/// The bytes of a run of columns, in order.
pub open spec fn spec_columns_bytes(cs: Seq<ProvableColumn>) -> Seq<u8>
    decreases cs.len(),
{
    if cs.len() == 0 {
        Seq::empty()
    } else {
        spec_columns_bytes(cs.drop_last()) + spec_column_bytes(cs.last())
    }
}

/// The full byte layout of a public result.
pub open spec fn spec_result_bytes(pr: ProvableQueryResult) -> Seq<u8> {
    spec_u64_le(pr.num_rows) + spec_u64_le(pr.columns@.len() as u64) + spec_columns_bytes(
        pr.columns@,
    )
}

/// Appends one column: its tag, then every cell.
#[verifier::rlimit(60)]
fn write_column(out: &mut Vec<u8>, c: &ProvableColumn)
    ensures
        final(out)@ == old(out)@ + spec_column_bytes(*c),
{
    match c {
        ProvableColumn::Scalars(v) => {
            out.push(0u8);
            let ghost start = out@;
            let mut i: usize = 0;
            while i < v.len()
                invariant
                    0 <= i <= v@.len(),
                    out@ == start + spec_scalars_bytes(v@.take(i as int)),
                decreases v@.len() - i,
            {
                proof {
                    assert(v@.take(i + 1int).drop_last() =~= v@.take(i as int));
                    assert(v@.take(i + 1int).last() == v@[i as int]);
                }
                write_scalar(out, &v[i]);
                proof {
                    assert(out@ =~= start + spec_scalars_bytes(v@.take(i + 1int)));
                }
                i += 1;
            }
            proof {
                assert(v@.take(v@.len() as int) =~= v@);
                assert(out@ =~= old(out)@ + spec_column_bytes(*c));
            }
        },
        ProvableColumn::Strings(v) => {
            out.push(1u8);
            let ghost start = out@;
            proof {
                assert(v.deep_view().len() == v@.len());
            }
            let mut i: usize = 0;
            while i < v.len()
                invariant
                    0 <= i <= v@.len(),
                    v.deep_view().len() == v@.len(),
                    out@ == start + spec_strings_bytes(v.deep_view().take(i as int)),
                decreases v@.len() - i,
            {
                proof {
                    assert(v.deep_view().take(i + 1int).drop_last() =~= v.deep_view().take(
                        i as int,
                    ));
                    assert(v.deep_view().take(i + 1int).last() == v.deep_view()[i as int]);
                    assert(v.deep_view()[i as int] == v@[i as int]@);
                }
                write_string_cell(out, v[i].as_str());
                proof {
                    assert(out@ =~= start + spec_strings_bytes(v.deep_view().take(i + 1int)));
                }
                i += 1;
            }
            proof {
                assert(v.deep_view().take(v@.len() as int) =~= v.deep_view());
                assert(out@ =~= old(out)@ + spec_column_bytes(*c));
            }
        },
    }
}

/// Appends one text cell: its byte length, then its UTF-8 bytes.
fn write_string_cell(out: &mut Vec<u8>, s: &str)
    ensures
        final(out)@ == old(out)@ + spec_u64_le((s.spec_bytes().len() as usize) as u64)
            + s.spec_bytes(),
{
    write_u64(out, s.len() as u64);
    append_str_bytes(out, s);
    proof {
        assert(out@ =~= old(out)@ + spec_u64_le((s.spec_bytes().len() as usize) as u64)
            + s.spec_bytes());
    }
}

/// Appends the UTF-8 bytes of a string slice.
fn append_str_bytes(out: &mut Vec<u8>, s: &str)
    ensures
        final(out)@ == old(out)@ + s.spec_bytes(),
{
    let bytes = s.as_bytes();
    let mut i: usize = 0;
    while i < bytes.len()
        invariant
            0 <= i <= bytes@.len(),
            bytes@ == s.spec_bytes(),
            out@ == old(out)@ + bytes@.take(i as int),
        decreases bytes@.len() - i,
    {
        out.push(bytes[i]);
        proof {
            assert(out@ =~= old(out)@ + bytes@.take(i + 1int));
        }
        i += 1;
    }
    proof {
        assert(bytes@.take(bytes@.len() as int) =~= bytes@);
    }
}

/// Serialises a public result into its byte layout.
pub fn provable_result_to_bytes(pr: &ProvableQueryResult) -> (r: Vec<u8>)
    ensures
        r@ == spec_result_bytes(*pr),
{
    let mut out: Vec<u8> = Vec::new();
    write_u64(&mut out, pr.num_rows);
    write_u64(&mut out, pr.columns.len() as u64);
    let ghost start = out@;
    let mut i: usize = 0;
    while i < pr.columns.len()
        invariant
            0 <= i <= pr.columns@.len(),
            start == spec_u64_le(pr.num_rows) + spec_u64_le(pr.columns@.len() as u64),
            out@ == start + spec_columns_bytes(pr.columns@.take(i as int)),
        decreases pr.columns@.len() - i,
    {
        proof {
            assert(pr.columns@.take(i + 1int).drop_last() =~= pr.columns@.take(i as int));
            assert(pr.columns@.take(i + 1int).last() == pr.columns@[i as int]);
        }
        write_column(&mut out, &pr.columns[i]);
        proof {
            assert(out@ =~= start + spec_columns_bytes(pr.columns@.take(i + 1int)));
        }
        i += 1;
    }
    proof {
        assert(pr.columns@.take(pr.columns@.len() as int) =~= pr.columns@);
        assert(out@ =~= spec_result_bytes(*pr));
    }
    out
}

/// Relies on str::from_utf8: a successful decode is a view of exactly the
/// input bytes.
#[verifier::external_body]
fn utf8_str(b: &[u8]) -> (r: Option<&str>)
    ensures
        r matches Some(s) ==> s.spec_bytes() == b@,
{
    core::str::from_utf8(b).ok()
}


/// Reads one column at the cursor: a tag, then `num_rows` cells of that
/// kind. Accepts only bytes that are the exact encoding of the column.
#[verifier::rlimit(100)]
fn read_column(b: &[u8], at: &mut usize, num_rows: u64) -> (r: Option<ProvableColumn>)
    requires
        *old(at) <= b@.len(),
    ensures
        r matches Some(c) ==> {
            &&& *old(at) <= *final(at) <= b@.len()
            &&& c.wf()
            &&& c.spec_len() == num_rows
            &&& b@.subrange(*old(at) as int, *final(at) as int) == spec_column_bytes(c)
        },
        r is None ==> *final(at) <= b@.len(),
{
    if *at >= b.len() {
        return None;
    }
    let tag = b[*at];
    *at = *at + 1;
    let ghost start = *at;
    proof {
        assert(b@.take(start as int) =~= b@.take(start - 1) + seq![b@[start - 1]]);
    }
    if tag == 0 {
        let mut cells: Vec<Scalar> = Vec::new();
        let mut cnt: u64 = 0;
        while cnt < num_rows
            invariant
                start <= *at <= b@.len(),
                cells@.len() == cnt,
                cnt <= num_rows,
                forall|j: int| 0 <= j < cells@.len() ==> (#[trigger] cells@[j]).is_canonical(),
                b@.subrange(start as int, *at as int) == spec_scalars_bytes(cells@),
            decreases num_rows - cnt,
        {
            let ghost before = *at;
            let s = match read_scalar(b, at) {
                Some(s) => s,
                None => {
                    return None;
                },
            };
            let ghost pre = cells@;
            cells.push(s);
            proof {
                assert(cells@.drop_last() =~= pre);
                assert(cells@.last() == s);
                assert(b@.subrange(start as int, *at as int) =~= b@.subrange(
                    start as int,
                    before as int,
                ) + b@.subrange(before as int, *at as int));
                assert(b@.subrange(start as int, *at as int) =~= spec_scalars_bytes(cells@));
            }
            cnt = cnt + 1;
        }
        let c = ProvableColumn::Scalars(cells);
        proof {
            assert(b@.subrange(start - 1, *at as int) =~= seq![0u8] + b@.subrange(
                start as int,
                *at as int,
            ));
            assert(b@.subrange(start - 1, *at as int) =~= spec_column_bytes(c));
        }
        Some(c)
    } else if tag == 1 {
        let mut cells: Vec<String> = Vec::new();
        let mut cnt: u64 = 0;
        while cnt < num_rows
            invariant
                start <= *at <= b@.len(),
                cells@.len() == cnt,
                cnt <= num_rows,
                cells.deep_view().len() == cells@.len(),
                b@.subrange(start as int, *at as int) == spec_strings_bytes(cells.deep_view()),
            decreases num_rows - cnt,
        {
            let ghost before = *at;
            let n = match read_u64(b, at) {
                Some(x) => x,
                None => {
                    return None;
                },
            };
            if ((b.len() - *at) as u64) < n {
                return None;
            }
            let nu = n as usize;
            let piece = vstd::slice::slice_subrange(b, *at, *at + nu);
            let st = match utf8_str(piece) {
                Some(s) => s,
                None => {
                    return None;
                },
            };
            let owned = st.to_owned();
            *at = *at + nu;
            let ghost pre_deep = cells.deep_view();
            let ghost cell_view = owned@;
            cells.push(owned);
            proof {
                assert(cells.deep_view().drop_last() =~= pre_deep);
                assert(cells.deep_view().last() == cell_view);
                assert(encode_utf8(cell_view) == b@.subrange(before + 8, *at as int));
                assert((encode_utf8(cell_view).len() as usize) as u64 == n);
                assert(b@.subrange(start as int, *at as int) =~= b@.subrange(
                    start as int,
                    before as int,
                ) + b@.subrange(before as int, before + 8) + b@.subrange(
                    before + 8,
                    *at as int,
                ));
                assert(b@.subrange(start as int, *at as int) =~= spec_strings_bytes(
                    cells.deep_view(),
                ));
            }
            cnt = cnt + 1;
        }
        let c = ProvableColumn::Strings(cells);
        proof {
            assert(b@.subrange(start - 1, *at as int) =~= seq![1u8] + b@.subrange(
                start as int,
                *at as int,
            ));
            assert(b@.subrange(start - 1, *at as int) =~= spec_column_bytes(c));
        }
        Some(c)
    } else {
        None
    }
}

/// Reads a public result back from its byte layout. Whatever is accepted is
/// well-formed — every field cell canonical, every column at the published
/// row count — and re-serialises to exactly the input; a bad tag, a bad
/// length, an out-of-range cell or trailing bytes are rejected.
#[verifier::rlimit(60)]
pub fn provable_result_from_bytes(b: &[u8]) -> (r: Option<ProvableQueryResult>)
    ensures
        r matches Some(pr) ==> pr.wf() && spec_result_bytes(pr) == b@,
{
    let mut at: usize = 0;
    let num_rows = match read_u64(b, &mut at) {
        Some(x) => x,
        None => {
            return None;
        },
    };
    let ncols = match read_u64(b, &mut at) {
        Some(x) => x,
        None => {
            return None;
        },
    };
    let ghost start = at;
    proof {
        assert(b@.take(start as int) =~= spec_u64_le(num_rows) + spec_u64_le(ncols));
    }
    let mut columns: Vec<ProvableColumn> = Vec::new();
    let mut k: u64 = 0;
    while k < ncols
        invariant
            start <= at <= b@.len(),
            columns@.len() == k,
            k <= ncols,
            forall|j: int| 0 <= j < columns@.len() ==> (#[trigger] columns@[j]).wf()
                && columns@[j].spec_len() == num_rows,
            b@.subrange(start as int, at as int) == spec_columns_bytes(columns@),
        decreases ncols - k,
    {
        let ghost before = at;
        let c = match read_column(b, &mut at, num_rows) {
            Some(c) => c,
            None => {
                return None;
            },
        };
        let ghost pre_cols = columns@;
        columns.push(c);
        proof {
            assert(columns@.drop_last() =~= pre_cols);
            assert(columns@.last() == c);
            assert(b@.subrange(start as int, at as int) =~= b@.subrange(
                start as int,
                before as int,
            ) + b@.subrange(before as int, at as int));
            assert(b@.subrange(start as int, at as int) =~= spec_columns_bytes(columns@));
        }
        k = k + 1;
    }
    if at != b.len() {
        return None;
    }
    let pr = ProvableQueryResult { num_rows, columns };
    proof {
        assert(columns@.len() as u64 == ncols);
        assert(b@.take(b@.len() as int) =~= b@);
        assert(b@.take(at as int) =~= b@.take(start as int) + b@.subrange(
            start as int,
            at as int,
        ));
        assert(spec_result_bytes(pr) =~= b@);
    }
    Some(pr)
}

} // verus!
