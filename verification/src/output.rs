//! The pixel-map output format, byte for byte: a header of two lines,
//! `"<width> <height>"` and `"16 1"`, and per-band bodies of `pixel_height`
//! lines of exactly `pixel_width` symbol bytes, each line closed by one
//! newline. Band files numbered 1..threads concatenated in order beneath the
//! header reconstruct the full image.

use vstd::arithmetic::div_mod::{
    lemma_div_decreases, lemma_div_pos_is_pos, lemma_fundamental_div_mod,
    lemma_mod_division_less_than_divisor,
};
use vstd::arithmetic::mul::{lemma_mul_inequality, lemma_mul_nonnegative};
use vstd::prelude::*;

verus! {

/// The decimal digits of `n`, most significant first, as ASCII bytes.
pub open spec fn dec_digits(n: nat) -> Seq<u8>
    decreases n,
{
    if n < 10 {
        seq![(48 + n) as u8]
    } else {
        dec_digits(n / 10) + seq![(48 + n % 10) as u8]
    }
}

/// A text line: the row's bytes followed by one newline.
pub open spec fn line_bytes(row: Seq<u8>) -> Seq<u8> {
    row + seq![10u8]
}

/// A band file's bytes: each rendered row as a line, in order.
pub open spec fn lines_bytes(rows: Seq<Seq<u8>>) -> Seq<u8>
    decreases rows.len(),
{
    if rows.len() == 0 {
        Seq::empty()
    } else {
        line_bytes(rows[0]) + lines_bytes(rows.drop_first())
    }
}

/// The header file's bytes: `"<width> <height>\n16 1\n"` — image size, then
/// the fixed alphabet size 16 and symbol width 1.
pub open spec fn header_spec(width: u32, height: u32) -> Seq<u8> {
    dec_digits(width as nat) + seq![32u8] + dec_digits(height as nat) + seq![
        10u8,
        49u8,
        54u8,
        32u8,
        49u8,
        10u8,
    ]
}

/// A well-formed pixel-map body: `nlines` lines of exactly `width` symbol
/// bytes — none of them a newline — each closed by one newline.
pub open spec fn body_wf(bytes: Seq<u8>, nlines: nat, width: nat) -> bool {
    &&& bytes.len() == nlines * (width + 1)
    &&& forall|l: int, j: int|
        0 <= l < nlines && 0 <= j < width ==> #[trigger] bytes[l * (width + 1) + j] != 10
    &&& forall|l: int| 0 <= l < nlines ==> #[trigger] bytes[l * (width + 1) + width] == 10
}

/// Where byte `j` of line `l` sits: inside the first `n` lines of a body.
proof fn lemma_line_index(l: int, j: int, n: int, w1: int)
    requires
        0 <= l < n,
        0 <= j < w1,
        1 <= w1,
    ensures
        0 <= l * w1 + j < n * w1,
{
    lemma_mul_nonnegative(l, w1);
    assert((l + 1) * w1 == l * w1 + w1) by (nonlinear_arith);
    lemma_mul_inequality(l + 1, n, w1);
}

/// Appending one row to a band file appends exactly one line.
pub proof fn lemma_lines_push(rows: Seq<Seq<u8>>, row: Seq<u8>)
    ensures
        lines_bytes(rows.push(row)) == lines_bytes(rows) + line_bytes(row),
    decreases rows.len(),
{
    if rows.len() == 0 {
        assert(rows.push(row).drop_first() =~= Seq::<Seq<u8>>::empty());
        assert(lines_bytes(rows) == Seq::<u8>::empty());
        assert(lines_bytes(rows.push(row).drop_first()) == Seq::<u8>::empty());
        assert(rows.push(row)[0] == row);
        assert(lines_bytes(rows.push(row)) =~= lines_bytes(rows) + line_bytes(row));
    } else {
        assert(rows.push(row).drop_first() =~= rows.drop_first().push(row));
        lemma_lines_push(rows.drop_first(), row);
        assert(lines_bytes(rows.push(row)) =~= lines_bytes(rows) + line_bytes(row));
    }
}

/// Two well-formed bodies of the same width concatenate to a well-formed
/// body with the lines of both: band files stack beneath one another.
pub proof fn lemma_body_concat(b1: Seq<u8>, b2: Seq<u8>, n1: nat, n2: nat, width: nat)
    requires
        body_wf(b1, n1, width),
        body_wf(b2, n2, width),
    ensures
        body_wf(b1 + b2, n1 + n2, width),
{
    let w1 = width as int + 1;
    let b = b1 + b2;
    assert((n1 + n2) * w1 == n1 * w1 + n2 * w1) by (nonlinear_arith);
    assert forall|l: int, j: int|
        0 <= l < n1 + n2 && 0 <= j < width implies #[trigger] b[l * (width + 1) + j] != 10 by {
        lemma_line_index(l, j, n1 + n2 as int, w1);
        if l < n1 {
            lemma_line_index(l, j, n1 as int, w1);
            assert(b1[l * (width + 1) + j] != 10);
        } else {
            lemma_line_index(l - n1, j, n2 as int, w1);
            assert(l * w1 == n1 * w1 + (l - n1) * w1) by (nonlinear_arith);
            assert(b2[(l - n1) * (width + 1) + j] != 10);
        }
    }
    assert forall|l: int| 0 <= l < n1 + n2 implies #[trigger] b[l * (width + 1) + width]
        == 10 by {
        lemma_line_index(l, width as int, n1 + n2 as int, w1);
        if l < n1 {
            lemma_line_index(l, width as int, n1 as int, w1);
            assert(b1[l * (width + 1) + width] == 10);
        } else {
            lemma_line_index(l - n1, width as int, n2 as int, w1);
            assert(l * w1 == n1 * w1 + (l - n1) * w1) by (nonlinear_arith);
            assert(b2[(l - n1) * (width + 1) + width] == 10);
        }
    }
}

/// Every band file rendered from rows of exactly `width` non-newline symbol
/// bytes is a well-formed body with one line per row.
pub proof fn lemma_lines_bytes_wf(rows: Seq<Seq<u8>>, width: nat)
    requires
        forall|i: int| 0 <= i < rows.len() ==> (#[trigger] rows[i]).len() == width,
        forall|i: int, j: int|
            0 <= i < rows.len() && 0 <= j < width ==> #[trigger] rows[i][j] != 10,
    ensures
        body_wf(lines_bytes(rows), rows.len(), width),
    decreases rows.len(),
{
    if rows.len() == 0 {
        assert(body_wf(lines_bytes(rows), 0, width));
    } else {
        let init = rows.drop_last();
        let last = rows.last();
        assert(init.push(last) =~= rows);
        lemma_lines_bytes_wf(init, width);
        lemma_lines_push(init, last);
        let lb = line_bytes(last);
        assert(body_wf(lb, 1, width)) by {
            assert(lb.len() == 1 * (width + 1));
            assert forall|l: int, j: int| 0 <= l < 1 && 0 <= j < width implies #[trigger] lb[l
                * (width + 1) + j] != 10 by {
                assert(lb[j] == last[j]);
                assert(rows[rows.len() - 1][j] != 10);
            }
            assert forall|l: int| 0 <= l < 1 implies #[trigger] lb[l * (width + 1) + width]
                == 10 by {
                assert(lb[width as int] == 10);
            }
        }
        lemma_body_concat(lines_bytes(init), lb, (rows.len() - 1) as nat, 1, width);
        assert(lines_bytes(rows) == lines_bytes(init) + lb);
    }
}

/// `u32_to_decimal(n)`: the decimal digits of `n`, exactly `dec_digits`.
pub fn u32_to_decimal(n: u32) -> (s: Vec<u8>)
    ensures
        s@ == dec_digits(n as nat),
{
    let mut buf: Vec<u8> = Vec::new();
    let mut m: u32 = n;
    if m == 0 {
        let mut s: Vec<u8> = Vec::new();
        s.push(48);
        proof {
            assert(s@ =~= dec_digits(0));
        }
        return s;
    }
    while m > 0
        invariant
            dec_digits(n as nat) == (if m > 0 {
                dec_digits(m as nat)
            } else {
                Seq::<u8>::empty()
            }) + buf@.reverse(),
        decreases m,
    {
        let d: u8 = 48 + (m % 10) as u8;
        proof {
            let ghost old_buf = buf@;
            lemma_div_pos_is_pos(m as int, 10);
            lemma_div_decreases(m as int, 10);
            assert(buf@.push(d).reverse() =~= seq![d] + old_buf.reverse());
            if m >= 10 {
                assert(dec_digits(m as nat) == dec_digits((m as nat) / 10) + seq![d]);
                assert(dec_digits((m / 10) as nat) + (seq![d] + old_buf.reverse())
                    =~= (dec_digits((m as nat) / 10) + seq![d]) + old_buf.reverse());
            } else {
                assert(m % 10 == m as int);
                assert(dec_digits(m as nat) == seq![d]);
                assert(Seq::<u8>::empty() + (seq![d] + old_buf.reverse()) =~= dec_digits(
                    m as nat,
                ) + old_buf.reverse());
            }
        }
        buf.push(d);
        m = m / 10;
    }
    let mut s: Vec<u8> = Vec::new();
    let mut i: usize = buf.len();
    while i > 0
        invariant
            i <= buf@.len(),
            s@.len() == buf@.len() - i,
            forall|k: int| 0 <= k < s@.len() ==> s@[k] == buf@[buf@.len() - 1 - k],
        decreases i,
    {
        i = i - 1;
        s.push(buf[i]);
    }
    proof {
        assert(s@ =~= buf@.reverse());
        assert(Seq::<u8>::empty() + buf@.reverse() =~= buf@.reverse());
    }
    s
}

/// `header_bytes(width, height)`: the header file's bytes, exactly
/// `header_spec`.
pub fn header_bytes(width: u32, height: u32) -> (bytes: Vec<u8>)
    ensures
        bytes@ == header_spec(width, height),
{
    let mut bytes = u32_to_decimal(width);
    bytes.push(32);
    let h = u32_to_decimal(height);
    let mut i: usize = 0;
    while i < h.len()
        invariant
            i <= h@.len(),
            bytes@ == dec_digits(width as nat) + seq![32u8] + h@.subrange(0, i as int),
        decreases h@.len() - i,
    {
        proof {
            assert(h@.subrange(0, i as int).push(h@[i as int]) =~= h@.subrange(0, i as int + 1));
            assert((dec_digits(width as nat) + seq![32u8] + h@.subrange(0, i as int)).push(
                h@[i as int],
            ) =~= dec_digits(width as nat) + seq![32u8] + h@.subrange(0, i as int + 1));
        }
        bytes.push(h[i]);
        i = i + 1;
    }
    proof {
        assert(h@.subrange(0, h@.len() as int) =~= h@);
    }
    bytes.push(10);
    bytes.push(49);
    bytes.push(54);
    bytes.push(32);
    bytes.push(49);
    bytes.push(10);
    proof {
        assert(bytes@ =~= header_spec(width, height));
    }
    bytes
}

/// `encode_rows(rows)`: the band file's bytes — each row's symbols followed
/// by a newline, in order — exactly `lines_bytes`.
pub fn encode_rows(rows: &Vec<Vec<u8>>) -> (bytes: Vec<u8>)
    ensures
        bytes@ == lines_bytes(rows.deep_view()),
{
    let mut bytes: Vec<u8> = Vec::new();
    let mut i: usize = 0;
    proof {
        assert(rows.deep_view().take(0) =~= Seq::<Seq<u8>>::empty());
    }
    while i < rows.len()
        invariant
            i <= rows@.len(),
            rows.deep_view().len() == rows@.len(),
            forall|k: int| 0 <= k < rows@.len() ==> rows.deep_view()[k] == rows@[k]@,
            bytes@ == lines_bytes(rows.deep_view().take(i as int)),
        decreases rows@.len() - i,
    {
        let row = &rows[i];
        let mut j: usize = 0;
        let ghost before = bytes@;
        while j < row.len()
            invariant
                j <= row@.len(),
                bytes@ == before + row@.subrange(0, j as int),
            decreases row@.len() - j,
        {
            proof {
                assert((before + row@.subrange(0, j as int)).push(row@[j as int]) =~= before
                    + row@.subrange(0, j as int + 1));
            }
            bytes.push(row[j]);
            j = j + 1;
        }
        proof {
            assert(row@.subrange(0, row@.len() as int) =~= row@);
        }
        bytes.push(10);
        proof {
            lemma_lines_push(rows.deep_view().take(i as int), rows.deep_view()[i as int]);
            assert(rows.deep_view().take(i as int).push(rows.deep_view()[i as int])
                =~= rows.deep_view().take(i as int + 1));
            assert(bytes@ =~= lines_bytes(rows.deep_view().take(i as int)) + line_bytes(
                rows.deep_view()[i as int],
            ));
        }
        i = i + 1;
    }
    proof {
        assert(rows.deep_view().take(rows@.len() as int) =~= rows.deep_view());
    }
    bytes
}

} // verus!
