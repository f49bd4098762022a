use vstd::prelude::*;

verus! {

/// The ASCII code of the digit `d`.
pub open spec fn digit_byte(d: nat) -> u8 {
    (48 + d) as u8
}

/// The decimal form of `n`: most significant digit first, without leading
/// zeros, `"0"` for zero.
pub open spec fn decimal(n: nat) -> Seq<u8>
    decreases n,
{
    if n < 10 {
        seq![digit_byte(n)]
    } else {
        decimal(n / 10).push(digit_byte(n % 10))
    }
}

/// The number that a string of ASCII digits denotes.
pub open spec fn digits_value(s: Seq<u8>) -> int
    decreases s.len(),
{
    if s.len() == 0 {
        0
    } else {
        digits_value(s.drop_last()) * 10 + (s.last() - 48)
    }
}

/// Whether every byte of `s` is an ASCII digit.
pub open spec fn all_digits(s: Seq<u8>) -> bool {
    forall|k: int| 0 <= k < s.len() ==> 48 <= #[trigger] s[k] <= 57
}

/// The first lines of a plain PPM file: the magic `P3`, the width and height,
/// and the maximum channel value 255, each line ended by a newline.
pub open spec fn spec_ppm_header(width: nat, height: nat) -> Seq<u8> {
    seq![80u8, 51u8, 10u8] + decimal(width) + seq![32u8] + decimal(height) + seq![
        10u8,
        50u8,
        53u8,
        53u8,
        10u8,
    ]
}

/// One pixel of a plain PPM file: the three channel values, separated by
/// single spaces and ended by a newline.
pub open spec fn spec_color_line(r: nat, g: nat, b: nat) -> Seq<u8> {
    decimal(r) + seq![32u8] + decimal(g) + seq![32u8] + decimal(b) + seq![10u8]
}

/// Appends the decimal form of `n` to `out`.
pub fn push_decimal(out: &mut Vec<u8>, n: u32)
    ensures
        final(out)@ == old(out)@ + decimal(n as nat),
    decreases n,
{
    if n >= 10 {
        push_decimal(out, n / 10);
    }
    let d: u8 = (n % 10) as u8;
    out.push(48u8 + d);
    proof {
        if n < 10 {
            assert(old(out)@ + decimal(n as nat) =~= old(out)@.push(digit_byte(n as nat)));
        } else {
            assert(old(out)@ + decimal((n / 10) as nat) + seq![digit_byte((n % 10) as nat)]
                =~= old(out)@ + decimal(n as nat));
        }
    }
}

/// Returns the decimal form of `n`.
pub fn decimal_string(n: u32) -> (s: Vec<u8>)
    ensures
        s@ == decimal(n as nat),
{
    let mut s: Vec<u8> = Vec::new();
    push_decimal(&mut s, n);
    assert(Seq::<u8>::empty() + decimal(n as nat) =~= decimal(n as nat));
    s
}

/// Returns the header of a plain PPM image of the given size.
pub fn ppm_header(image_width: u32, image_height: u32) -> (h: Vec<u8>)
    ensures
        h@ == spec_ppm_header(image_width as nat, image_height as nat),
{
    let mut h: Vec<u8> = Vec::new();
    h.push(80u8);
    h.push(51u8);
    h.push(10u8);
    push_decimal(&mut h, image_width);
    h.push(32u8);
    push_decimal(&mut h, image_height);
    h.push(10u8);
    h.push(50u8);
    h.push(53u8);
    h.push(53u8);
    h.push(10u8);
    assert(h@ =~= spec_ppm_header(image_width as nat, image_height as nat));
    h
}

/// The pixel lines of a plain PPM image, one per pixel, in the given order.
pub open spec fn spec_ppm_body(pixels: Seq<(u32, u32, u32)>) -> Seq<u8>
    decreases pixels.len(),
{
    if pixels.len() == 0 {
        Seq::empty()
    } else {
        let (r, g, b) = pixels.last();
        spec_ppm_body(pixels.drop_last()) + spec_color_line(r as nat, g as nat, b as nat)
    }
}

/// Appends the line of one pixel with channel values `ir`, `ig`, `ib`.
pub fn push_color_line(out: &mut Vec<u8>, ir: u32, ig: u32, ib: u32)
    ensures
        final(out)@ == old(out)@ + spec_color_line(ir as nat, ig as nat, ib as nat),
{
    push_decimal(out, ir);
    out.push(32u8);
    push_decimal(out, ig);
    out.push(32u8);
    push_decimal(out, ib);
    out.push(10u8);
    assert(final(out)@ =~= old(out)@ + spec_color_line(ir as nat, ig as nat, ib as nat));
}

/// Returns the line that writes one pixel with channel values `ir`, `ig`, `ib`.
pub fn color_line(ir: u32, ig: u32, ib: u32) -> (line: Vec<u8>)
    ensures
        line@ == spec_color_line(ir as nat, ig as nat, ib as nat),
{
    let mut line: Vec<u8> = Vec::new();
    push_color_line(&mut line, ir, ig, ib);
    assert(Seq::<u8>::empty() + spec_color_line(ir as nat, ig as nat, ib as nat)
        =~= spec_color_line(ir as nat, ig as nat, ib as nat));
    line
}

/// Returns a whole plain PPM file: the header for an image of the given
/// size, then one line for each pixel's channel values, in order.
pub fn encode_ppm(image_width: u32, image_height: u32, pixels: &Vec<(u32, u32, u32)>) -> (file: Vec<
    u8,
>)
    ensures
        file@ == spec_ppm_header(image_width as nat, image_height as nat) + spec_ppm_body(pixels@),
{
    let mut file = ppm_header(image_width, image_height);
    let ghost header = file@;
    for k in 0..pixels.len()
        invariant
            header == spec_ppm_header(image_width as nat, image_height as nat),
            file@ == header + spec_ppm_body(pixels@.take(k as int)),
    {
        let (r, g, b) = pixels[k];
        push_color_line(&mut file, r, g, b);
        proof {
            let next = pixels@.take(k + 1);
            assert(next.drop_last() =~= pixels@.take(k as int));
            assert(next.last() == (r, g, b));
            assert(file@ =~= header + spec_ppm_body(next));
        }
    }
    assert(pixels@.take(pixels@.len() as int) =~= pixels@);
    file
}

/// The decimal form of a number is a non-empty string of digits, and it
/// starts with `0` only when the number is zero.
pub proof fn lemma_decimal_well_formed(n: nat)
    ensures
        decimal(n).len() >= 1,
        all_digits(decimal(n)),
        decimal(n)[0] == 48u8 ==> n == 0,
    decreases n,
{
    if n >= 10 {
        lemma_decimal_well_formed(n / 10);
        assert(decimal(n)[0] == decimal(n / 10)[0]);
    }
}

/// Reading the decimal form of a number gives the number back.
pub proof fn lemma_decimal_roundtrip(n: nat)
    ensures
        digits_value(decimal(n)) == n,
    decreases n,
{
    if n < 10 {
        assert(decimal(n).drop_last() =~= Seq::<u8>::empty());
        assert(decimal(n).last() == (48 + n) as u8);
        assert(digits_value(Seq::<u8>::empty()) == 0);
    } else {
        lemma_decimal_roundtrip(n / 10);
        assert(decimal(n).drop_last() =~= decimal(n / 10));
        assert(decimal(n).last() == (48 + n % 10) as u8);
        assert(n == (n / 10) * 10 + n % 10);
    }
}

/// Different numbers have different decimal forms.
pub proof fn lemma_decimal_injective(m: nat, n: nat)
    requires
        decimal(m) == decimal(n),
    ensures
        m == n,
{
    lemma_decimal_roundtrip(m);
    lemma_decimal_roundtrip(n);
}

/// Whether `line` reads back as the channel values `r`, `g`, `b`: three
/// non-empty runs of ASCII digits, denoting `r`, `g` and `b` in that order,
/// separated by single spaces and ended by a newline.
pub open spec fn reads_as_channels(line: Seq<u8>, r: nat, g: nat, b: nat) -> bool {
    exists|i: int, j: int|
        #![trigger line[i], line[j]]
        {
            &&& 0 < i
            &&& i + 1 < j
            &&& j + 2 < line.len()
            &&& line[i] == 32u8
            &&& line[j] == 32u8
            &&& line[line.len() - 1] == 10u8
            &&& all_digits(line.subrange(0, i))
            &&& all_digits(line.subrange(i + 1, j))
            &&& all_digits(line.subrange(j + 1, line.len() - 1))
            &&& digits_value(line.subrange(0, i)) == r
            &&& digits_value(line.subrange(i + 1, j)) == g
            &&& digits_value(line.subrange(j + 1, line.len() - 1)) == b
        }
}

/// The number of newline bytes in `s`.
pub open spec fn newlines(s: Seq<u8>) -> nat
    decreases s.len(),
{
    if s.len() == 0 {
        0
    } else {
        newlines(s.drop_last()) + if s.last() == 10u8 {
            1nat
        } else {
            0nat
        }
    }
}

proof fn lemma_newlines_concat(a: Seq<u8>, b: Seq<u8>)
    ensures
        newlines(a + b) == newlines(a) + newlines(b),
    decreases b.len(),
{
    if b.len() == 0 {
        assert(a + b =~= a);
    } else {
        lemma_newlines_concat(a, b.drop_last());
        assert((a + b).drop_last() =~= a + b.drop_last());
        assert((a + b).last() == b.last());
    }
}

proof fn lemma_digits_have_no_newline(s: Seq<u8>)
    requires
        all_digits(s),
    ensures
        newlines(s) == 0,
    decreases s.len(),
{
    if s.len() > 0 {
        assert(all_digits(s.drop_last())) by {
            assert forall|k: int| 0 <= k < s.drop_last().len() implies 48 <= #[trigger] s.drop_last()[k]
                <= 57 by {
                assert(s.drop_last()[k] == s[k]);
            }
        }
        lemma_digits_have_no_newline(s.drop_last());
        assert(48 <= s[s.len() - 1] <= 57);
    }
}

/// The line written for a pixel reads back as that pixel's channel values, in
/// the order red, green, blue.
pub proof fn lemma_color_line_reads_back(r: nat, g: nat, b: nat)
    ensures
        reads_as_channels(spec_color_line(r, g, b), r, g, b),
{
    let dr = decimal(r);
    let dg = decimal(g);
    let db = decimal(b);
    let line = spec_color_line(r, g, b);
    lemma_decimal_well_formed(r);
    lemma_decimal_well_formed(g);
    lemma_decimal_well_formed(b);
    lemma_decimal_roundtrip(r);
    lemma_decimal_roundtrip(g);
    lemma_decimal_roundtrip(b);
    let i = dr.len() as int;
    let j = i + 1 + dg.len();
    assert(line.len() == dr.len() + dg.len() + db.len() + 3);
    assert(line.subrange(0, i) =~= dr);
    assert(line.subrange(i + 1, j) =~= dg);
    assert(line.subrange(j + 1, line.len() - 1) =~= db);
    assert(line[i] == 32u8);
    assert(line[j] == 32u8);
    assert(line[line.len() - 1] == 10u8);
}

/// The line written for a pixel holds exactly one newline, its last byte.
pub proof fn lemma_color_line_is_one_line(r: nat, g: nat, b: nat)
    ensures
        newlines(spec_color_line(r, g, b)) == 1,
        spec_color_line(r, g, b).last() == 10u8,
{
    lemma_decimal_well_formed(r);
    lemma_decimal_well_formed(g);
    lemma_decimal_well_formed(b);
    lemma_digits_have_no_newline(decimal(r));
    lemma_digits_have_no_newline(decimal(g));
    lemma_digits_have_no_newline(decimal(b));
    let sp = seq![32u8];
    let nl = seq![10u8];
    assert(newlines(Seq::<u8>::empty()) == 0);
    assert(newlines(sp) == 0) by {
        assert(sp.drop_last() =~= Seq::<u8>::empty());
        assert(sp.last() == 32u8);
    }
    assert(newlines(nl) == 1) by {
        assert(nl.drop_last() =~= Seq::<u8>::empty());
        assert(nl.last() == 10u8);
    }
    lemma_newlines_concat(decimal(r), sp);
    lemma_newlines_concat(decimal(r) + sp, decimal(g));
    lemma_newlines_concat(decimal(r) + sp + decimal(g), sp);
    lemma_newlines_concat(decimal(r) + sp + decimal(g) + sp, decimal(b));
    lemma_newlines_concat(decimal(r) + sp + decimal(g) + sp + decimal(b), nl);
}

/// The body of the pixels of `a` followed by those of `b` is the body of `a`
/// followed by the body of `b`: every pixel gets its own line, whatever its
/// neighbours.
pub proof fn lemma_ppm_body_concat(a: Seq<(u32, u32, u32)>, b: Seq<(u32, u32, u32)>)
    ensures
        spec_ppm_body(a + b) == spec_ppm_body(a) + spec_ppm_body(b),
    decreases b.len(),
{
    if b.len() == 0 {
        assert(a + b =~= a);
        assert(spec_ppm_body(a) + Seq::<u8>::empty() =~= spec_ppm_body(a));
    } else {
        lemma_ppm_body_concat(a, b.drop_last());
        assert((a + b).drop_last() =~= a + b.drop_last());
        assert((a + b).last() == b.last());
        let (r, g, bl) = b.last();
        assert(spec_ppm_body(a + b) =~= spec_ppm_body(a) + spec_ppm_body(b.drop_last())
            + spec_color_line(r as nat, g as nat, bl as nat));
    }
}

/// The body of a single pixel is that pixel's line, and the body of no pixels
/// is empty.
pub proof fn lemma_ppm_body_single(r: u32, g: u32, b: u32)
    ensures
        spec_ppm_body(seq![(r, g, b)]) == spec_color_line(r as nat, g as nat, b as nat),
        spec_ppm_body(Seq::<(u32, u32, u32)>::empty()) == Seq::<u8>::empty(),
{
    assert(seq![(r, g, b)].drop_last() =~= Seq::<(u32, u32, u32)>::empty());
    assert(seq![(r, g, b)].last() == (r, g, b));
    assert(spec_ppm_body(Seq::<(u32, u32, u32)>::empty()) == Seq::<u8>::empty());
    assert(Seq::<u8>::empty() + spec_color_line(r as nat, g as nat, b as nat) =~= spec_color_line(
        r as nat,
        g as nat,
        b as nat,
    ));
}

/// The body holds exactly one line per pixel: as many newlines as pixels.
pub proof fn lemma_ppm_body_line_count(pixels: Seq<(u32, u32, u32)>)
    ensures
        newlines(spec_ppm_body(pixels)) == pixels.len(),
    decreases pixels.len(),
{
    if pixels.len() > 0 {
        lemma_ppm_body_line_count(pixels.drop_last());
        let (r, g, b) = pixels.last();
        lemma_color_line_is_one_line(r as nat, g as nat, b as nat);
        lemma_newlines_concat(
            spec_ppm_body(pixels.drop_last()),
            spec_color_line(r as nat, g as nat, b as nat),
        );
    }
}

} // verus!
