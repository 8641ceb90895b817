//! How a render is split among threads and put back together: workers claim
//! bands of rows from a shared counter, and the finished bands are written
//! out in image order behind a binary PPM header.

use vstd::prelude::*;
use vstd::string::StringExecFns;
use crate::text::{lemma_parse_decimal_roundtrip, spec_decimal, spec_parse_unsigned, usize_to_string};

verus! {

/// Rows a worker claims at once.
pub const CHUNK_ROWS: usize = 8;

/// The rows `[start, end)` claimed when the shared counter reads `start`:
/// the next `CHUNK_ROWS` rows, cut off at the bottom of the image, or
/// `None` once the counter has passed the last row.
pub open spec fn spec_claim(start: usize, height: usize) -> Option<(usize, usize)> {
    if start < height {
        Some((start, vstd::math::min(start + CHUNK_ROWS, height as int) as usize))
    } else {
        None
    }
}

/// The number of bands of `CHUNK_ROWS` rows (the last one possibly
/// shorter) that cover `height` rows.
pub open spec fn spec_chunk_count(height: nat) -> nat {
    (height + CHUNK_ROWS - 1) as nat / CHUNK_ROWS as nat
}

/// The rows that a worker renders when the shared row counter hands it
/// `start_row`: up to `CHUNK_ROWS` rows from there, or `None` when no row is
/// left and the worker stops.
pub fn claim_rows(start_row: usize, height: usize) -> (r: Option<(usize, usize)>)
    ensures
        r == spec_claim(start_row, height),
{
    if start_row >= height {
        None
    } else if height - start_row < CHUNK_ROWS {
        Some((start_row, height))
    } else {
        Some((start_row, start_row + CHUNK_ROWS))
    }
}

/// The number of bands that cover `height` rows.
pub fn chunk_count(height: usize) -> (r: usize)
    ensures
        r == spec_chunk_count(height as nat),
{
    let whole = height / CHUNK_ROWS;
    if height % CHUNK_ROWS == 0 {
        whole
    } else {
        whole + 1
    }
}

/// The number of rendering threads: the one asked for, or else the
/// machine's parallelism (1 when unknown) but no more than the number of
/// rows.
pub fn thread_count(requested: Option<usize>, available: Option<usize>, height: usize) -> (r: usize)
    ensures
        r == match requested {
            Some(n) => n,
            None => {
                let a = match available {
                    Some(a) => a,
                    None => 1,
                };
                if a < height {
                    a
                } else {
                    height
                }
            },
        },
{
    match requested {
        Some(n) => n,
        None => {
            let a = match available {
                Some(a) => a,
                None => 1,
            };
            if a < height {
                a
            } else {
                height
            }
        },
    }
}

/// The header of a binary (`P6`) PPM image of 8-bit channels.
pub open spec fn spec_ppm_header(width: nat, height: nat) -> Seq<char> {
    seq!['P', '6', '\n'] + spec_decimal(width) + seq![' '] + spec_decimal(height) + seq![
        '\n',
        '2',
        '5',
        '5',
        '\n',
    ]
}

/// The PPM header line block: `P6`, the width and height, and the largest
/// channel value 255, each followed by a newline.
pub fn ppm_header(width: usize, height: usize) -> (r: String)
    ensures
        r@ == spec_ppm_header(width as nat, height as nat),
{
    let mut r = String::from_str("P6\n");
    r.append(usize_to_string(width).as_str());
    r.append(" ");
    r.append(usize_to_string(height).as_str());
    r.append("\n255\n");
    proof {
        reveal_strlit("P6\n");
        reveal_strlit(" ");
        reveal_strlit("\n255\n");
    }
    assert(r@ =~= spec_ppm_header(width as nat, height as nat));
    r
}

/// The bytes of the received bands, in band order.
pub open spec fn spec_flatten(chunks: Seq<Option<Vec<u8>>>) -> Seq<u8>
    decreases chunks.len(),
{
    if chunks.len() == 0 {
        Seq::empty()
    } else {
        spec_flatten(chunks.drop_last()) + match chunks.last() {
            Some(v) => v@,
            None => Seq::empty(),
        }
    }
}

/// Collects the bands that workers send back, in whatever order they
/// arrive, and counts the rows received.
pub struct ChunkAssembler {
    height: usize,
    chunks: Vec<Option<Vec<u8>>>,
    rows_received: usize,
}

impl ChunkAssembler {
    /// The number of rows of the image.
    pub closed spec fn height(&self) -> nat {
        self.height as nat
    }

    /// The band slots, in band order: `None` for a band not yet received.
    pub closed spec fn chunks(&self) -> Seq<Option<Vec<u8>>> {
        self.chunks@
    }

    /// The number of rows received so far.
    pub closed spec fn rows_received(&self) -> nat {
        self.rows_received as nat
    }

    /// One slot per band, and no more rows received than the image has.
    #[verifier::type_invariant]
    spec fn well_formed(self) -> bool {
        &&& self.chunks@.len() == spec_chunk_count(self.height as nat)
        &&& self.rows_received <= self.height
    }

    /// An assembler for an image of `height` rows, with no band received.
    pub fn new(height: usize) -> (r: Self)
        ensures
            r.height() == height,
            r.rows_received() == 0,
            r.chunks() == Seq::new(spec_chunk_count(height as nat), |i: int| None::<Vec<u8>>),
    {
        let n = chunk_count(height);
        let mut chunks: Vec<Option<Vec<u8>>> = Vec::new();
        let mut i: usize = 0;
        while i < n
            invariant
                i <= n,
                chunks@ == Seq::new(i as nat, |k: int| None::<Vec<u8>>),
            decreases n - i,
        {
            chunks.push(None);
            i = i + 1;
            assert(chunks@ =~= Seq::new(i as nat, |k: int| None::<Vec<u8>>));
        }
        ChunkAssembler { height, chunks, rows_received: 0 }
    }

    /// Stores the bytes of rows `[start_row, end_row)` in the slot of the
    /// band that `start_row` falls in and returns how many rows are still
    /// missing. The band must be one of the image's bands, and the rows must
    /// not make more rows than the image has.
    pub fn receive(&mut self, start_row: usize, end_row: usize, data: Vec<u8>) -> (remaining: usize)
        requires
            start_row <= end_row,
            start_row / CHUNK_ROWS < spec_chunk_count(old(self).height()),
            old(self).rows_received() + (end_row - start_row) <= old(self).height(),
        ensures
            final(self).height() == old(self).height(),
            final(self).chunks() == old(self).chunks().update(
                start_row as int / CHUNK_ROWS as int,
                Some(data),
            ),
            final(self).rows_received() == old(self).rows_received() + (end_row - start_row),
            remaining == final(self).height() - final(self).rows_received(),
    {
        proof {
            use_type_invariant(&*self);
        }
        let mut taken = ChunkAssembler { height: 0, chunks: Vec::new(), rows_received: 0 };
        std::mem::swap(self, &mut taken);
        proof {
            use_type_invariant(&taken);
        }
        let ChunkAssembler { height, mut chunks, rows_received } = taken;
        let index = start_row / CHUNK_ROWS;
        chunks.set(index, Some(data));
        let rows_received = rows_received + (end_row - start_row);
        *self = ChunkAssembler { height, chunks, rows_received };
        height - rows_received
    }

    /// The number of rows of the image.
    pub fn image_height(&self) -> (r: usize)
        ensures
            r == self.height(),
    {
        self.height
    }

    /// The number of rows received so far.
    pub fn received_rows(&self) -> (r: usize)
        ensures
            r == self.rows_received(),
    {
        self.rows_received
    }

    /// Whether every row has been received.
    pub fn is_complete(&self) -> (r: bool)
        ensures
            r == (self.rows_received() >= self.height()),
    {
        self.rows_received >= self.height
    }

    /// The bytes of all received bands, in band order, whatever the order
    /// in which they arrived.
    pub fn into_bytes(self) -> (r: Vec<u8>)
        ensures
            r@ == spec_flatten(self.chunks()),
    {
        let n = self.chunks.len();
        let mut out: Vec<u8> = Vec::new();
        let mut i: usize = 0;
        while i < n
            invariant
                n == self.chunks@.len(),
                i <= n,
                out@ == spec_flatten(self.chunks@.take(i as int)),
            decreases n - i,
        {
            assert(self.chunks@.take(i + 1).drop_last() =~= self.chunks@.take(i as int));
            match &self.chunks[i] {
                Some(bytes) => {
                    let ghost before = out@;
                    out.extend_from_slice(bytes.as_slice());
                    assert(out@ =~= before + bytes@);
                },
                None => {
                    assert(out@ =~= out@ + Seq::<u8>::empty());
                },
            }
            i = i + 1;
        }
        assert(self.chunks@.take(n as int) =~= self.chunks@);
        out
    }
}

/// Every row of the image lies in the band that the counter value
/// `CHUNK_ROWS * (row / CHUNK_ROWS)` claims, and that band is one of the
/// `chunk_count(height)` bands.
pub proof fn lemma_band_of_row(height: usize, row: usize)
    requires
        row < height,
    ensures
        CHUNK_ROWS * (row / CHUNK_ROWS) <= row,
        row / CHUNK_ROWS < spec_chunk_count(height as nat),
        spec_claim((CHUNK_ROWS * (row / CHUNK_ROWS)) as usize, height) matches Some((s, e)) && s
            <= row < e,
{
    let k = row / 8;
    assert(8 * k <= row < 8 * k + 8) by (nonlinear_arith)
        requires k == row / 8;
    assert(k < (height + 7) / 8) by (nonlinear_arith)
        requires k == row / 8, row < height;
}

/// Bands claimed at different counter values share no row.
pub proof fn lemma_bands_disjoint(height: usize, a: usize, b: usize)
    requires
        a < b,
        b % CHUNK_ROWS == 0,
        a % CHUNK_ROWS == 0,
        spec_claim(a, height) is Some,
    ensures
        spec_claim(a, height) matches Some((s, e)) && e <= b,
{
    assert(a + 8 <= b) by (nonlinear_arith)
        requires a < b, a % 8 == 0, b % 8 == 0;
}

/// The counter value `CHUNK_ROWS * k` claims a band exactly while `k` is less
/// than the number of bands, so the workers stop once every band is out.
pub proof fn lemma_claims_end(height: usize, k: nat)
    requires
        CHUNK_ROWS * k <= usize::MAX,
    ensures
        spec_claim((CHUNK_ROWS * k) as usize, height) is Some <==> k < spec_chunk_count(
            height as nat,
        ),
{
    assert(8 * k < height <==> k < (height + 7) / 8) by (nonlinear_arith);
}

/// Bands stored in different slots do not disturb each other: the image is
/// the same whichever of two bands arrives first.
pub proof fn lemma_arrival_order_irrelevant(
    chunks: Seq<Option<Vec<u8>>>,
    i: int,
    j: int,
    x: Option<Vec<u8>>,
    y: Option<Vec<u8>>,
)
    requires
        0 <= i < chunks.len(),
        0 <= j < chunks.len(),
        i != j,
    ensures
        spec_flatten(chunks.update(i, x).update(j, y)) == spec_flatten(
            chunks.update(j, y).update(i, x),
        ),
{
    assert(chunks.update(i, x).update(j, y) =~= chunks.update(j, y).update(i, x));
}

/// The image bytes are the bands' bytes in increasing band order: nothing
/// comes from no bands, a received band adds its bytes after those of the
/// bands before it, and a missing band adds none.
pub proof fn lemma_flatten_in_band_order(chunks: Seq<Option<Vec<u8>>>, v: Vec<u8>)
    ensures
        spec_flatten(Seq::<Option<Vec<u8>>>::empty()) == Seq::<u8>::empty(),
        spec_flatten(chunks.push(Some(v))) == spec_flatten(chunks) + v@,
        spec_flatten(chunks.push(None)) == spec_flatten(chunks),
{
    assert(chunks.push(Some(v)).drop_last() =~= chunks);
    assert(chunks.push(None::<Vec<u8>>).drop_last() =~= chunks);
    assert(spec_flatten(chunks) + Seq::<u8>::empty() =~= spec_flatten(chunks));
}

/// The image bytes of two runs of bands one after the other are the bytes
/// of the first run followed by those of the second.
pub proof fn lemma_flatten_concat(a: Seq<Option<Vec<u8>>>, b: Seq<Option<Vec<u8>>>)
    ensures
        spec_flatten(a + b) == spec_flatten(a) + spec_flatten(b),
    decreases b.len(),
{
    if b.len() == 0 {
        assert(a + b =~= a);
        assert(spec_flatten(a) + Seq::<u8>::empty() =~= spec_flatten(a));
    } else {
        lemma_flatten_concat(a, b.drop_last());
        assert((a + b).drop_last() =~= a + b.drop_last());
        assert((a + b).last() == b.last());
        let tail: Seq<u8> = match b.last() {
            Some(v) => v@,
            None => Seq::empty(),
        };
        assert(spec_flatten(a) + spec_flatten(b.drop_last()) + tail =~= spec_flatten(a) + (
        spec_flatten(b.drop_last()) + tail));
    }
}

/// `chunk_count(height)` bands of `CHUNK_ROWS` rows are just enough for
/// `height` rows: they reach the last row, and one band fewer would not.
pub proof fn lemma_chunk_count_fits(height: nat)
    ensures
        spec_chunk_count(height) * CHUNK_ROWS >= height,
        spec_chunk_count(height) * CHUNK_ROWS < height + CHUNK_ROWS,
        height == 0 ==> spec_chunk_count(height) == 0,
{
    let c = spec_chunk_count(height);
    assert(c * 8 >= height && c * 8 < height + 8) by (nonlinear_arith)
        requires c == (height + 7) / 8;
}

/// The header is the magic `P6` and a newline, then the width and the height
/// in decimal separated by one space, then a newline, the largest channel
/// value 255 and a newline: reading each number back gives the width and the
/// height.
pub proof fn lemma_ppm_header_fields(width: nat, height: nat)
    ensures
        ({
            let hdr = spec_ppm_header(width, height);
            let w = spec_decimal(width).len() as int;
            let h = spec_decimal(height).len() as int;
            &&& hdr.len() == 3 + w + 1 + h + 5
            &&& hdr.take(3) == seq!['P', '6', '\n']
            &&& spec_parse_unsigned(hdr.subrange(3, 3 + w)) == Some(width)
            &&& hdr[3 + w] == ' '
            &&& spec_parse_unsigned(hdr.subrange(4 + w, 4 + w + h)) == Some(height)
            &&& hdr.skip(4 + w + h) == seq!['\n', '2', '5', '5', '\n']
        }),
{
    let hdr = spec_ppm_header(width, height);
    let dw = spec_decimal(width);
    let dh = spec_decimal(height);
    let w = dw.len() as int;
    let h = dh.len() as int;
    lemma_parse_decimal_roundtrip(width);
    lemma_parse_decimal_roundtrip(height);
    assert(hdr.subrange(3, 3 + w) =~= dw);
    assert(hdr.subrange(4 + w, 4 + w + h) =~= dh);
    assert(hdr.take(3) =~= seq!['P', '6', '\n']);
    assert(hdr.skip(4 + w + h) =~= seq!['\n', '2', '5', '5', '\n']);
}

} // verus!
