//! The header of a `.npy` file, as far as it tells whether the reader can be given it.
//!
//! The header is a Python literal. The reader tries a list, a dictionary or a
//! tuple more than once at every depth, so the time it takes grows with the
//! depth as a power does, and it calls itself for every depth. The header of an
//! array of numbers has a dictionary with a tuple in it.

use vstd::prelude::*;

verus! {

/// The greatest depth that a header may have.
pub const MOST_DEPTH: usize = 8;

/// An opening bracket: `[`, `(` or `{`.
pub open spec fn opens(byte: u8) -> bool {
    byte == 0x5B || byte == 0x28 || byte == 0x7B
}

/// A closing bracket: `]`, `)` or `}`.
pub open spec fn closes(byte: u8) -> bool {
    byte == 0x5D || byte == 0x29 || byte == 0x7D
}

/// What is known at a place in a header.
#[verifier::ext_equal]
pub ghost struct Scan {
    /// How many brackets are open.
    pub depth: nat,
    /// How many brackets were open at once, up to here.
    pub deepest: nat,
    /// The quotation mark of the text that the place is inside of, if it is.
    pub quote: Option<u8>,
    /// A backslash in a text has just come.
    pub escaped: bool,
    /// A character has been given by its name, `\N{..}`, in a text. What is text is
    /// not followed beyond that: every opening bracket counts from then on, and no
    /// closing one.
    pub blurred: bool,
}

impl Scan {
    /// Nothing has come.
    pub open spec fn start() -> Scan {
        Scan { depth: 0, deepest: 0, quote: None, escaped: false, blurred: false }
    }

    /// One bracket more is open.
    pub open spec fn deeper(self) -> Scan {
        Scan {
            depth: self.depth + 1,
            deepest: if self.depth + 1 > self.deepest {
                self.depth + 1
            } else {
                self.deepest
            },
            ..self
        }
    }

    /// The next byte has come.
    pub open spec fn step(self, byte: u8) -> Scan {
        if self.blurred {
            if opens(byte) {
                self.deeper()
            } else {
                self
            }
        } else {
            match self.quote {
                Some(quote) => if self.escaped {
                    Scan { escaped: false, blurred: byte == 0x4E, ..self }
                } else if byte == 0x5C {
                    Scan { escaped: true, ..self }
                } else if byte == quote {
                    Scan { quote: None, ..self }
                } else {
                    self
                },
                None => if byte == 0x22 || byte == 0x27 {
                    Scan { quote: Some(byte), ..self }
                } else if opens(byte) {
                    self.deeper()
                } else if closes(byte) && self.depth > 0 {
                    Scan { depth: (self.depth - 1) as nat, ..self }
                } else {
                    self
                },
            }
        }
    }
}

/// What is known behind the text.
pub open spec fn scan(text: Seq<u8>) -> Scan
    decreases text.len(),
{
    if text.len() == 0 {
        Scan::start()
    } else {
        scan(text.drop_last()).step(text.last())
    }
}

/// Where the text of the header begins: its length before it has two bytes in the
/// first version of the format, and four in the later ones.
pub open spec fn header_start(bytes: Seq<u8>) -> int {
    if bytes[6] == 1 {
        10
    } else {
        12
    }
}

/// Where the text of the header ends.
pub open spec fn header_end(bytes: Seq<u8>) -> int {
    let short = bytes[8] + 0x100 * bytes[9];
    if bytes[6] == 1 {
        10 + short
    } else {
        12 + short + 0x1_0000 * bytes[10] + 0x100_0000 * bytes[11]
    }
}

/// The file holds the whole header, and that is not deeply nested.
pub open spec fn npy_header_is_flat(bytes: Seq<u8>) -> bool {
    &&& bytes.len() >= 12
    &&& header_end(bytes) <= bytes.len()
    &&& scan(bytes.subrange(header_start(bytes), header_end(bytes))).deepest <= MOST_DEPTH
}

/// Does the file hold the whole header, and is that not deeply nested?
pub fn header_is_flat(bytes: &Vec<u8>) -> (r: bool)
    ensures
        r == npy_header_is_flat(bytes@),
{
    let len: usize = bytes.len();
    if len < 12 {
        return false;
    }
    let short: u64 = bytes[8] as u64 + 0x100 * bytes[9] as u64;
    let (start, end): (usize, u64) = if bytes[6] == 1 {
        (10, 10 + short)
    } else {
        (12, 12 + short + 0x1_0000 * bytes[10] as u64 + 0x100_0000 * bytes[11] as u64)
    };
    if end > len as u64 {
        return false;
    }
    let end: usize = end as usize;
    let ghost text = bytes@.subrange(start as int, end as int);
    let mut depth: usize = 0;
    let mut deepest: usize = 0;
    let mut quote: Option<u8> = None;
    let mut escaped: bool = false;
    let mut blurred: bool = false;
    let mut i: usize = start;
    assert(text.take(0) =~= Seq::empty());
    while i < end
        invariant
            start <= i <= end <= len,
            len == bytes@.len(),
            text == bytes@.subrange(start as int, end as int),
            depth <= i,
            scan(text.take(i - start)) == (Scan {
                depth: depth as nat,
                deepest: deepest as nat,
                quote,
                escaped,
                blurred,
            }),
        decreases end - i,
    {
        let byte: u8 = bytes[i];
        proof {
            assert(text.take(i - start + 1).drop_last() =~= text.take(i - start));
            assert(text.take(i - start + 1).last() == byte);
        }
        let opening: bool = byte == 0x5B || byte == 0x28 || byte == 0x7B;
        let closing: bool = byte == 0x5D || byte == 0x29 || byte == 0x7D;
        let text_goes_on: bool = !blurred && quote.is_some();
        if text_goes_on {
            if escaped {
                escaped = false;
                blurred = byte == 0x4E;
            } else if byte == 0x5C {
                escaped = true;
            } else if quote == Some(byte) {
                quote = None;
            }
        } else if !blurred && (byte == 0x22 || byte == 0x27) {
            quote = Some(byte);
        } else if opening {
            depth = depth + 1;
            if depth > deepest {
                deepest = depth;
            }
        } else if !blurred && closing && depth > 0 {
            depth = depth - 1;
        }
        i = i + 1;
    }
    assert(text.take(i - start) =~= text);
    deepest <= MOST_DEPTH
}

} // verus!
