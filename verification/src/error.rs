//! The error value shared by every stage of the pipeline.
//!
//! Failures carry a numeric code and a message; the code's century says
//! which category the failure belongs to, so callers can branch on it
//! without parsing the message.

use vstd::prelude::*;

verus! {

/// Image bytes could not be acquired or decoded into a raster.
pub const CODE_ACQUISITION: i32 = 100;

/// Detection produced zero candidates or malformed candidate geometry.
pub const CODE_NO_BARCODE: i32 = 200;

/// A candidate quadrilateral is degenerate or its transform is unsolvable.
pub const CODE_GEOMETRY: i32 = 300;

/// The decode capability failed, or produced bytes that are not valid text.
pub const CODE_DECODE: i32 = 400;

/// The detect capability itself failed, as opposed to reporting a
/// clean no-detection outcome.
pub const CODE_DETECT: i32 = 500;

/// An error with a numeric code and a human-readable message.
#[derive(Debug, Clone)]
pub struct Exception {
    pub code: i32,
    pub message: String,
}

/// The decimal digits of `n`, most significant first.
pub open spec fn dec_digits(n: nat) -> Seq<char>
    decreases n,
{
    if n < 10 {
        seq![digit_char(n)]
    } else {
        dec_digits(n / 10) + seq![digit_char(n % 10)]
    }
}

/// The character for one decimal digit.
pub open spec fn digit_char(d: nat) -> char {
    if d == 0 {
        '0'
    } else if d == 1 {
        '1'
    } else if d == 2 {
        '2'
    } else if d == 3 {
        '3'
    } else if d == 4 {
        '4'
    } else if d == 5 {
        '5'
    } else if d == 6 {
        '6'
    } else if d == 7 {
        '7'
    } else if d == 8 {
        '8'
    } else {
        '9'
    }
}

/// The decimal rendering of `n`, with a leading minus sign when negative.
pub open spec fn dec_str(n: int) -> Seq<char> {
    if n < 0 {
        seq!['-'] + dec_digits((-n) as nat)
    } else {
        dec_digits(n as nat)
    }
}

fn digit_str(d: u64) -> (s: &'static str)
    requires
        d < 10,
    ensures
        s@ == seq![digit_char(d as nat)],
{
    let s: &'static str = if d == 0 {
        "0"
    } else if d == 1 {
        "1"
    } else if d == 2 {
        "2"
    } else if d == 3 {
        "3"
    } else if d == 4 {
        "4"
    } else if d == 5 {
        "5"
    } else if d == 6 {
        "6"
    } else if d == 7 {
        "7"
    } else if d == 8 {
        "8"
    } else {
        "9"
    };
    proof {
        reveal_strlit("0");
        reveal_strlit("1");
        reveal_strlit("2");
        reveal_strlit("3");
        reveal_strlit("4");
        reveal_strlit("5");
        reveal_strlit("6");
        reveal_strlit("7");
        reveal_strlit("8");
        reveal_strlit("9");
        assert(s@ =~= seq![digit_char(d as nat)]);
    }
    s
}

/// The decimal rendering of a 32-bit integer as a string.
pub fn decimal_string(code: i32) -> (s: String)
    ensures
        s@ == dec_str(code as int),
{
    let wide: i64 = code as i64;
    let mut magnitude: u64 = if wide < 0 {
        (-wide) as u64
    } else {
        wide as u64
    };
    let ghost start: nat = magnitude as nat;
    let mut reversed: Vec<u64> = Vec::new();
    if magnitude == 0 {
        reversed.push(0);
        proof {
            assert(dec_digits(start) =~= seq![digit_char(0)]);
        }
    }
    while magnitude > 0
        invariant
            if magnitude > 0 {
                dec_digits(start) =~= dec_digits(magnitude as nat) + digit_seq(reversed@).reverse()
            } else {
                dec_digits(start) =~= digit_seq(reversed@).reverse()
            },
            forall|i: int| 0 <= i < reversed@.len() ==> reversed@[i] < 10,
        decreases magnitude,
    {
        let d: u64 = magnitude % 10;
        let ghost old_rev = reversed@;
        reversed.push(d);
        proof {
            assert(digit_seq(reversed@) =~= digit_seq(old_rev) + seq![digit_char(d as nat)]);
            assert(digit_seq(reversed@).reverse() =~= seq![digit_char(d as nat)] + digit_seq(
                old_rev,
            ).reverse());
            if magnitude >= 10 {
                assert(dec_digits(magnitude as nat) =~= dec_digits((magnitude as nat) / 10) + seq![
                    digit_char((magnitude as nat) % 10),
                ]);
            }
        }
        magnitude = magnitude / 10;
    }
    let mut s: String = String::new();
    if wide < 0 {
        s.append("-");
        proof {
            reveal_strlit("-");
        }
    }
    let ghost prefix = s@;
    let mut i: usize = reversed.len();
    while i > 0
        invariant
            i <= reversed@.len(),
            forall|k: int| 0 <= k < reversed@.len() ==> reversed@[k] < 10,
            s@ =~= prefix + digit_seq(reversed@).reverse().take(
                reversed@.len() - i,
            ),
        decreases i,
    {
        i = i - 1;
        let d = reversed[i];
        s.append(digit_str(d));
        proof {
            let whole = digit_seq(reversed@).reverse();
            assert(whole[reversed@.len() - i - 1] == digit_char(reversed@[i as int] as nat));
            assert(whole.take(reversed@.len() - i) =~= whole.take(reversed@.len() - i - 1)
                + seq![whole[reversed@.len() - i - 1]]);
        }
    }
    proof {
        let whole = digit_seq(reversed@).reverse();
        assert(whole.take(reversed@.len() as int) =~= whole);
        assert(s@ =~= dec_str(code as int));
    }
    s
}

/// The digit characters for a sequence of digit values.
spec fn digit_seq(ds: Seq<u64>) -> Seq<char> {
    ds.map_values(|d: u64| digit_char(d as nat))
}

impl Exception {
    /// Builds an error from its numeric code and message.
    pub fn new(code: i32, message: &str) -> (e: Exception)
        ensures
            e.code == code,
            e.message@ == message@,
    {
        Exception { code, message: String::from_str(message) }
    }

    /// Renders the error as `<code>, <message>`.
    pub fn to_string(&self) -> (s: String)
        ensures
            s@ == dec_str(self.code as int) + ", "@ + self.message@,
    {
        let mut s = decimal_string(self.code);
        s.append(", ");
        s.append(self.message.as_str());
        s
    }
}

} // verus!
