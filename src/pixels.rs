//! Encoding 8-bit pixels: the lines of a plain PPM (P3) image, and the RGBA
//! bytes that a PNG encoder takes.
use vstd::prelude::*;

verus! {

/// A pixel with 8 bits per channel.
#[derive(Debug, Clone, Copy, PartialEq, Eq, Structural)]
pub struct Rgb8 {
    pub red: u8,
    pub green: u8,
    pub blue: u8,
}

pub open spec fn digit_char(d: nat) -> char {
    if d == 0 {
        '0'
    } else if d == 1 {
        '1'
    } else if d == 2 {
        '2'
    } else if d == 3 {
        '3'
    } else if d == 4 {
        '4'
    } else if d == 5 {
        '5'
    } else if d == 6 {
        '6'
    } else if d == 7 {
        '7'
    } else if d == 8 {
        '8'
    } else {
        '9'
    }
}

/// The decimal digits of `n`, without leading zeros.
pub open spec fn decimal(n: nat) -> Seq<char>
    decreases n,
{
    if n < 10 {
        seq![digit_char(n)]
    } else {
        decimal(n / 10).push(digit_char(n % 10))
    }
}

/// The three channels of a pixel in decimal, separated by spaces.
pub open spec fn pixel_text(p: Rgb8) -> Seq<char> {
    decimal(p.red as nat) + " "@ + decimal(p.green as nat) + " "@ + decimal(p.blue as nat)
}

/// The pixels of a row, separated by spaces.
pub open spec fn row_text(row: Seq<Rgb8>) -> Seq<char>
    decreases row.len(),
{
    if row.len() == 0 {
        Seq::empty()
    } else if row.len() == 1 {
        pixel_text(row[0])
    } else {
        row_text(row.drop_last()) + " "@ + pixel_text(row.last())
    }
}

/// The lines of a P3 image of `rows`: the magic number, the size, the
/// largest channel value, one line per row, and a last line holding a
/// newline.
pub open spec fn ppm_spec(width: nat, rows: Seq<Seq<Rgb8>>) -> Seq<Seq<char>> {
    seq!["P3"@, decimal(width) + " "@ + decimal(rows.len()), "255"@] + rows.map_values(
        |row: Seq<Rgb8>| row_text(row),
    ) + seq!["\n"@]
}

fn digit(d: usize) -> (r: &'static str)
    requires
        d < 10,
    ensures
        r@ == seq![digit_char(d as nat)],
{
    proof {
        reveal_strlit("0");
        reveal_strlit("1");
        reveal_strlit("2");
        reveal_strlit("3");
        reveal_strlit("4");
        reveal_strlit("5");
        reveal_strlit("6");
        reveal_strlit("7");
        reveal_strlit("8");
        reveal_strlit("9");
    }
    if d == 0 {
        "0"
    } else if d == 1 {
        "1"
    } else if d == 2 {
        "2"
    } else if d == 3 {
        "3"
    } else if d == 4 {
        "4"
    } else if d == 5 {
        "5"
    } else if d == 6 {
        "6"
    } else if d == 7 {
        "7"
    } else if d == 8 {
        "8"
    } else {
        "9"
    }
}

/// `n` in decimal.
pub fn decimal_text(n: usize) -> (r: String)
    ensures
        r@ == decimal(n as nat),
    decreases n,
{
    if n < 10 {
        String::from_str(digit(n))
    } else {
        let s = decimal_text(n / 10);
        s.concat(digit(n % 10))
    }
}

fn pixel_string(p: Rgb8) -> (r: String)
    ensures
        r@ == pixel_text(p),
{
    let s = decimal_text(p.red as usize);
    let s = s.concat(" ");
    let g = decimal_text(p.green as usize);
    let s = s.concat(g.as_str());
    let s = s.concat(" ");
    let b = decimal_text(p.blue as usize);
    s.concat(b.as_str())
}

fn row_string(row: &Vec<Rgb8>) -> (r: String)
    ensures
        r@ == row_text(row@),
{
    let mut s = String::new();
    let mut i: usize = 0;
    while i < row.len()
        invariant
            i <= row@.len(),
            s@ == row_text(row@.take(i as int)),
        decreases row@.len() - i,
    {
        proof {
            assert(row@.take(i as int + 1).drop_last() =~= row@.take(i as int));
        }
        let p = pixel_string(row[i]);
        if i == 0 {
            s = p;
        } else {
            s = s.concat(" ");
            s = s.concat(p.as_str());
        }
        i += 1;
    }
    proof {
        assert(row@.take(row@.len() as int) =~= row@);
    }
    s
}

/// The lines of a plain PPM (P3) image of `rows`, each row `width` pixels
/// wide.
pub fn ppm_data(width: usize, rows: &Vec<Vec<Rgb8>>) -> (r: Vec<String>)
    ensures
        r@.map_values(|s: String| s@) == ppm_spec(
            width as nat,
            rows@.map_values(|row: Vec<Rgb8>| row@),
        ),
{
    let ghost rv = rows@.map_values(|row: Vec<Rgb8>| row@);
    let mut v: Vec<String> = Vec::new();
    v.push(String::from_str("P3"));
    let size = decimal_text(width);
    let size = size.concat(" ");
    let h = decimal_text(rows.len());
    v.push(size.concat(h.as_str()));
    v.push(String::from_str("255"));
    let mut y: usize = 0;
    while y < rows.len()
        invariant
            y <= rows@.len(),
            rv == rows@.map_values(|row: Vec<Rgb8>| row@),
            v@.map_values(|s: String| s@) =~= seq![
                "P3"@,
                decimal(width as nat) + " "@ + decimal(rows@.len()),
                "255"@,
            ] + rv.take(y as int).map_values(|row: Seq<Rgb8>| row_text(row)),
        decreases rows@.len() - y,
    {
        let line = row_string(&rows[y]);
        let ghost before = v@;
        v.push(line);
        proof {
            let head = seq![
                "P3"@,
                decimal(width as nat) + " "@ + decimal(rows@.len()),
                "255"@,
            ];
            assert(rv.take(y as int + 1) =~= rv.take(y as int).push(rows@[y as int]@));
            assert(rv.take(y as int + 1).map_values(|row: Seq<Rgb8>| row_text(row)) =~= rv.take(
                y as int,
            ).map_values(|row: Seq<Rgb8>| row_text(row)).push(row_text(rows@[y as int]@)));
            assert(v@.map_values(|s: String| s@) =~= before.map_values(|s: String| s@).push(
                line@,
            ));
            assert(head + rv.take(y as int + 1).map_values(|row: Seq<Rgb8>| row_text(row)) =~= (
            head + rv.take(y as int).map_values(|row: Seq<Rgb8>| row_text(row))).push(
                row_text(rows@[y as int]@),
            ));
        }
        y += 1;
    }
    v.push(String::from_str("\n"));
    proof {
        assert(rv.take(rows@.len() as int) =~= rv);
    }
    v
}

/// The pixels as bytes, four to a pixel: red, green, blue, and an opaque
/// alpha of 255.
pub fn rgba_bytes(pixels: &Vec<Rgb8>) -> (r: Vec<u8>)
    requires
        pixels@.len() <= usize::MAX / 4,
    ensures
        r@.len() == 4 * pixels@.len(),
        forall|k: int|
            0 <= k < pixels@.len() ==> {
                &&& #[trigger] r@[4 * k] == pixels@[k].red
                &&& r@[4 * k + 1] == pixels@[k].green
                &&& r@[4 * k + 2] == pixels@[k].blue
                &&& r@[4 * k + 3] == 255
            },
{
    let mut out: Vec<u8> = Vec::new();
    let mut i: usize = 0;
    while i < pixels.len()
        invariant
            i <= pixels@.len(),
            pixels@.len() <= usize::MAX / 4,
            out@.len() == 4 * i,
            forall|k: int|
                0 <= k < i ==> {
                    &&& #[trigger] out@[4 * k] == pixels@[k].red
                    &&& out@[4 * k + 1] == pixels@[k].green
                    &&& out@[4 * k + 2] == pixels@[k].blue
                    &&& out@[4 * k + 3] == 255
                },
        decreases pixels@.len() - i,
    {
        let p = pixels[i];
        let ghost before = out@;
        out.push(p.red);
        out.push(p.green);
        out.push(p.blue);
        out.push(255);
        proof {
            assert forall|k: int| 0 <= k < i + 1 implies {
                &&& #[trigger] out@[4 * k] == pixels@[k].red
                &&& out@[4 * k + 1] == pixels@[k].green
                &&& out@[4 * k + 2] == pixels@[k].blue
                &&& out@[4 * k + 3] == 255
            } by {
                if k < i {
                    assert(before[4 * k] == pixels@[k].red);
                }
            }
        }
        i += 1;
    }
    out
}

} // verus!
