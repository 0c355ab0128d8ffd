use vstd::prelude::*;

verus! {

/// The size of the image and the number of samples traced per pixel.
#[derive(Clone, Copy)]
pub struct RenderingParams {
    pub samples_per_pixel: i32,
    pub image_height: usize,
    pub image_width: usize,
}

/// An output pixel: red, green and blue channels.
pub type RGB = (i32, i32, i32);

/// The decimal digits of `n`, as ASCII bytes, most significant first.
pub open spec fn decimal(n: nat) -> Seq<u8>
    decreases n,
{
    if n < 10 {
        seq![(48 + n) as u8]
    } else {
        decimal(n / 10).push((48 + n % 10) as u8)
    }
}

/// `n` written in decimal, with a leading `-` when it is negative.
pub open spec fn signed_decimal(n: int) -> Seq<u8> {
    if n < 0 {
        seq![45u8] + decimal((-n) as nat)
    } else {
        decimal(n as nat)
    }
}

/// The PPM header: magic number, width and height, and channel maximum,
/// each on a line of its own.
pub open spec fn ppm_header(width: nat, height: nat) -> Seq<u8> {
    seq![80u8, 51u8, 10u8] + decimal(width) + seq![32u8] + decimal(height) + seq![10u8, 50u8, 53u8, 53u8, 10u8]
}

/// One pixel's line: its three channels, separated by spaces.
pub open spec fn pixel_line(p: RGB) -> Seq<u8> {
    signed_decimal(p.0 as int) + seq![32u8] + signed_decimal(p.1 as int) + seq![32u8]
        + signed_decimal(p.2 as int) + seq![10u8]
}

/// The lines of the first `k` pixels of `row`.
pub open spec fn row_text(row: Seq<RGB>, k: nat) -> Seq<u8>
    decreases k,
{
    if k == 0 || k > row.len() {
        Seq::empty()
    } else {
        row_text(row, (k - 1) as nat) + pixel_line(row[k - 1])
    }
}

/// The lines of the last `k` rows of `rows`, from the last row upwards.
pub open spec fn rows_text(rows: Seq<Vec<RGB>>, k: nat) -> Seq<u8>
    decreases k,
{
    if k == 0 || k > rows.len() {
        Seq::empty()
    } else {
        let row = rows[rows.len() - k]@;
        rows_text(rows, (k - 1) as nat) + row_text(row, row.len())
    }
}

/// Appends the decimal digits of `n`.
fn push_decimal(out: &mut Vec<u8>, n: u64)
    ensures
        final(out)@ == old(out)@ + decimal(n as nat),
    decreases n,
{
    if n >= 10 {
        push_decimal(out, n / 10);
    }
    out.push(48u8 + (n % 10) as u8);
    proof {
        if n >= 10 {
            assert(decimal(n as nat) == decimal((n / 10) as nat).push((48 + n % 10) as u8));
        }
    }
}

/// Appends `n` in decimal, with a leading `-` when it is negative.
fn push_signed_decimal(out: &mut Vec<u8>, n: i32)
    ensures
        final(out)@ == old(out)@ + signed_decimal(n as int),
{
    if n < 0 {
        out.push(45u8);
        let m: u64 = (-(n as i64)) as u64;
        push_decimal(out, m);
        assert(final(out)@ =~= old(out)@ + signed_decimal(n as int));
    } else {
        push_decimal(out, n as u64);
    }
}

/// The image as a plain-text PPM file: the header, then one line per pixel,
/// the rows from the last index to the first (the last scanline is the
/// top of the picture) and each row from left to right.
pub fn encode_ppm(params: &RenderingParams, image: &Vec<Vec<RGB>>) -> (r: Vec<u8>)
    requires
        image.len() == params.image_height,
        forall|j: int| 0 <= j < image.len() ==> #[trigger] image@[j]@.len() == params.image_width,
    ensures
        r@ == ppm_header(params.image_width as nat, params.image_height as nat) + rows_text(
            image@,
            image.len() as nat,
        ),
{
    let mut out: Vec<u8> = Vec::new();
    out.push(80u8);
    out.push(51u8);
    out.push(10u8);
    push_decimal(&mut out, params.image_width as u64);
    out.push(32u8);
    push_decimal(&mut out, params.image_height as u64);
    out.push(10u8);
    out.push(50u8);
    out.push(53u8);
    out.push(53u8);
    out.push(10u8);
    let ghost header = ppm_header(params.image_width as nat, params.image_height as nat);
    assert(out@ =~= header);
    let h = image.len();
    let mut k: usize = 0;
    while k < h
        invariant
            h == image.len(),
            k <= h,
            out@ == header + rows_text(image@, k as nat),
        decreases h - k,
    {
        let row = &image[h - 1 - k];
        let ghost before = out@;
        let mut i: usize = 0;
        while i < row.len()
            invariant
                i <= row.len(),
                out@ == before + row_text(row@, i as nat),
            decreases row.len() - i,
        {
            let p = row[i];
            let ghost line_start = out@;
            push_signed_decimal(&mut out, p.0);
            out.push(32u8);
            push_signed_decimal(&mut out, p.1);
            out.push(32u8);
            push_signed_decimal(&mut out, p.2);
            out.push(10u8);
            assert(out@ =~= line_start + pixel_line(p));
            assert(row_text(row@, (i + 1) as nat) == row_text(row@, i as nat) + pixel_line(row@[i as int]));
            assert(out@ =~= before + row_text(row@, (i + 1) as nat));
            i = i + 1;
        }
        assert(rows_text(image@, (k + 1) as nat) == rows_text(image@, k as nat) + row_text(row@, row@.len()));
        assert(out@ =~= header + rows_text(image@, (k + 1) as nat));
        k = k + 1;
    }
    out
}


/// The least time, in milliseconds, between two progress reports.
pub const REPORT_INTERVAL_MS: usize = 300;

/// What the progress log does after a scanline is finished.
#[derive(Clone, Copy, Debug, PartialEq, Eq, Structural)]
pub enum ProgressReport {
    /// Every scanline is done.
    Done,
    /// Report this percentage of scanlines left, and remember the time.
    Remaining(usize),
    /// Too soon after the last report: say nothing.
    Silent,
}

/// The progress decision after a scanline, with `remaining` of `total`
/// scanlines still to do, `elapsed_ms` since the render started and the
/// last report at `last_logged_ms`.
pub fn progress_report(remaining: usize, total: usize, elapsed_ms: usize, last_logged_ms: usize) -> (r:
    ProgressReport)
    requires
        0 < total <= usize::MAX / 100,
        remaining <= total,
    ensures
        remaining == 0 ==> r == ProgressReport::Done,
        remaining > 0 && last_logged_ms < elapsed_ms && elapsed_ms - last_logged_ms
            > REPORT_INTERVAL_MS ==> r == ProgressReport::Remaining(
            (remaining * 100 / (total as int)) as usize,
        ),
        remaining > 0 && !(last_logged_ms < elapsed_ms && elapsed_ms - last_logged_ms
            > REPORT_INTERVAL_MS) ==> r == ProgressReport::Silent,
{
    if remaining == 0 {
        ProgressReport::Done
    } else if last_logged_ms < elapsed_ms && elapsed_ms - last_logged_ms > REPORT_INTERVAL_MS {
        proof {
            assert(remaining * 100 <= total * 100) by (nonlinear_arith)
                requires
                    remaining <= total,
            ;
        }
        ProgressReport::Remaining(remaining * 100 / total)
    } else {
        ProgressReport::Silent
    }
}

} // verus!
