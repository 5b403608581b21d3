//! The directories of a TIFF file, as far as they tell whether the decoder can be
//! given a page.
//!
//! A TIFF file begins with the place of its first directory. A directory lists
//! what is to be known of one page, and ends with the place of the next one. The
//! decoder counts the strips or tiles of a page without asking whether their
//! number can be held, and its JPEG decoder computes with what it finds in a page
//! without asking either. [`page_is_countable`] and [`page_is_jpeg`] tell such
//! pages from the others.

use vstd::prelude::*;

verus! {

/// How a TIFF file writes its numbers.
#[derive(Clone, Copy, PartialEq, Eq, Structural, Debug)]
pub struct Layout {
    /// The least significant byte comes first.
    pub little: bool,
    /// Offsets have 64 bits.
    pub wide: bool,
}

/// What an entry of a directory says, where a single number is asked for.
#[derive(Clone, Copy, PartialEq, Eq, Structural, Debug)]
pub enum Field {
    /// There is no such entry.
    Missing,
    /// The entry gives no number, or one that is too large.
    Unreadable,
    Number(u64),
}

/// What a directory says, as far as it matters here.
#[derive(Clone, Copy, PartialEq, Eq, Structural, Debug)]
pub struct Directory {
    pub width: Field,
    pub height: Field,
    pub compression: Field,
    /// The number of values for each pixel.
    pub samples: Field,
    /// The number of rows in a strip.
    pub rows: Field,
    /// How the values of a pixel are arranged: 1 for together, 2 for apart.
    pub arrangement: Field,
    pub tile_width: Field,
    pub tile_height: Field,
    /// The page is cut into tiles.
    pub tiled: bool,
    /// The place of the next directory, 0 if there is none.
    pub next: u64,
}

/// The number in the `size` bytes from `at` on.
pub open spec fn number_at(bytes: Seq<u8>, little: bool, at: int, size: int) -> int
    decreases size,
{
    if size <= 0 {
        0
    } else if little {
        bytes[at] + 256 * number_at(bytes, little, at + 1, size - 1)
    } else {
        256 * number_at(bytes, little, at, size - 1) + bytes[at + size - 1]
    }
}

/// How many numbers have the given number of bytes.
pub open spec fn number_bound(size: int) -> int
    decreases size,
{
    if size <= 0 {
        1
    } else {
        256 * number_bound(size - 1)
    }
}

/// The number in the `size` bytes from `at` on.
fn number(bytes: &Vec<u8>, little: bool, at: usize, size: usize) -> (r: u64)
    requires
        at + size <= bytes@.len(),
        size <= 8,
    ensures
        r == number_at(bytes@, little, at as int, size as int),
        r < number_bound(size as int),
    decreases size,
{
    if size == 0 {
        return 0;
    }
    let len: usize = bytes.len();
    assert(at + size <= len);
    assert(number_bound(size as int) <= 0x1_0000_0000_0000_0000) by {
        reveal_with_fuel(number_bound, 9);
    }
    if little {
        let rest: u64 = number(bytes, little, at + 1, size - 1);
        bytes[at] as u64 + 256 * rest
    } else {
        let rest: u64 = number(bytes, little, at, size - 1);
        256 * rest + bytes[at + size - 1] as u64
    }
}

impl Layout {
    /// The number of bytes of an offset.
    pub open spec fn offset_size(self) -> int {
        if self.wide {
            8
        } else {
            4
        }
    }

    /// The number of bytes of the number of entries.
    pub open spec fn count_size(self) -> int {
        if self.wide {
            8
        } else {
            2
        }
    }

    /// The number of bytes of an entry whose values have the given type. Of one
    /// with an unknown type, 12 bytes are passed over in either layout.
    pub open spec fn entry_size(self, kind: int) -> int {
        if self.wide && type_is_known(kind) {
            20
        } else {
            12
        }
    }
}

/// A type of values that the decoder knows.
pub open spec fn type_is_known(kind: int) -> bool {
    1 <= kind <= 13 || 16 <= kind <= 18
}

/// The type of the values of the entry at `at`.
pub open spec fn entry_type(bytes: Seq<u8>, layout: Layout, at: int) -> int {
    number_at(bytes, layout.little, at + 2, 2)
}

/// The number of bytes of a whole number of the given type; 0 if the type is not
/// one of whole numbers without a sign. Offsets count as such.
pub open spec fn type_size(kind: int) -> int {
    if kind == 1 || kind == 7 {
        1
    } else if kind == 3 {
        2
    } else if kind == 4 || kind == 13 {
        4
    } else if kind == 16 || kind == 18 {
        8
    } else {
        0
    }
}

/// The number that the entry at `at` gives, if it gives a single one that is whole
/// and without a sign. One that does not fit into the entry stands where the entry
/// points to.
pub open spec fn entry_number(bytes: Seq<u8>, layout: Layout, at: int) -> Option<int> {
    let size = type_size(entry_type(bytes, layout, at));
    let count = number_at(bytes, layout.little, at + 4, layout.offset_size());
    let place = at + 4 + layout.offset_size();
    let far = number_at(bytes, layout.little, place, 4);
    if count != 1 || size == 0 {
        None
    } else if size <= layout.offset_size() {
        Some(number_at(bytes, layout.little, place, size))
    } else if far + size <= bytes.len() {
        Some(number_at(bytes, layout.little, far, size))
    } else {
        None
    }
}

/// What the entry at `at` says where a number of 32 bits is asked for.
pub open spec fn long_field(bytes: Seq<u8>, layout: Layout, at: int) -> Field {
    match entry_number(bytes, layout, at) {
        Some(v) => if v <= 0xFFFF_FFFF {
            Field::Number(v as u64)
        } else {
            Field::Unreadable
        },
        None => Field::Unreadable,
    }
}

/// What the entry at `at` says where a number of 16 bits is asked for, which must
/// not be an offset.
pub open spec fn short_field(bytes: Seq<u8>, layout: Layout, at: int) -> Field {
    let kind = entry_type(bytes, layout, at);
    match long_field(bytes, layout, at) {
        Field::Number(v) => if v <= 0xFFFF && kind != 13 && kind != 18 {
            Field::Number(v)
        } else {
            Field::Unreadable
        },
        _ => Field::Unreadable,
    }
}

/// How many pieces of a given size a side has.
pub open spec fn pieces_along(side: int, piece: int) -> int {
    (side - 1) / piece + 1
}

impl Directory {
    /// A directory without entries.
    pub open spec fn blank() -> Directory {
        Directory {
            width: Field::Missing,
            height: Field::Missing,
            compression: Field::Missing,
            samples: Field::Missing,
            rows: Field::Missing,
            arrangement: Field::Missing,
            tile_width: Field::Missing,
            tile_height: Field::Missing,
            tiled: false,
            next: 0,
        }
    }

    /// The directory with one more entry, which says `long` or `short` where a
    /// number of 32 or 16 bits is asked for. Of two entries with one tag, the later
    /// counts.
    pub open spec fn with(self, tag: int, long: Field, short: Field) -> Directory {
        if tag == 256 {
            Directory { width: long, ..self }
        } else if tag == 257 {
            Directory { height: long, ..self }
        } else if tag == 259 {
            Directory { compression: short, ..self }
        } else if tag == 277 {
            Directory { samples: short, ..self }
        } else if tag == 278 {
            Directory { rows: long, ..self }
        } else if tag == 284 {
            Directory { arrangement: short, ..self }
        } else if tag == 322 {
            Directory { tile_width: long, ..self }
        } else if tag == 323 {
            Directory { tile_height: long, ..self }
        } else if tag == 324 {
            Directory { tiled: true, ..self }
        } else {
            self
        }
    }

    /// The number of planes: one for each value of a pixel, if these are stored
    /// apart. There is none where the decoder refuses the page.
    pub open spec fn planes(self) -> Option<int> {
        match (self.samples, self.arrangement) {
            (Field::Unreadable, _) => None,
            (Field::Number(0), _) => None,
            (_, Field::Missing) => Some(1),
            (_, Field::Number(1)) => Some(1),
            (Field::Missing, Field::Number(2)) => Some(1),
            (Field::Number(n), Field::Number(2)) => Some(n as int),
            _ => None,
        }
    }

    /// The number of strips or tiles, of all planes together. There is none where
    /// the decoder refuses the page before it counts them.
    pub open spec fn pieces(self) -> Option<int> {
        match (self.width, self.height, self.planes()) {
            (Field::Number(w), Field::Number(h), Some(planes)) => if w == 0 || h == 0 {
                None
            } else if self.tiled {
                match (self.tile_width, self.tile_height) {
                    (Field::Number(tw), Field::Number(th)) => if tw == 0 || th == 0 {
                        None
                    } else {
                        Some(
                            pieces_along(h as int, th as int) * pieces_along(w as int, tw as int)
                                * planes,
                        )
                    },
                    _ => None,
                }
            } else {
                match self.rows {
                    Field::Missing => Some(planes),
                    Field::Number(rows) => if rows == 0 {
                        None
                    } else {
                        Some(pieces_along(h as int, rows as int) * planes)
                    },
                    Field::Unreadable => None,
                }
            },
            _ => None,
        }
    }

    /// The decoder can count the strips or tiles: strips with 32 bits, tiles with
    /// those of a `usize`.
    pub open spec fn countable(self) -> bool {
        self.pieces() matches Some(n) ==> n <= if self.tiled {
            usize::MAX as int
        } else {
            u32::MAX as int
        }
    }

    /// The page is JPEG-compressed.
    pub open spec fn jpeg(self) -> bool {
        self.compression == Field::Number(7)
    }

    /// The number of planes, which is positive.
    fn count_planes(&self) -> (r: Option<u64>)
        ensures
            match r {
                Some(n) => self.planes() == Some(n as int) && n >= 1,
                None => self.planes() is None,
            },
    {
        let samples: u64 = match self.samples {
            Field::Missing => 1,
            Field::Unreadable => {
                return None;
            },
            Field::Number(n) => n,
        };
        if samples == 0 {
            return None;
        }
        match self.arrangement {
            Field::Missing => Some(1),
            Field::Unreadable => None,
            Field::Number(n) => if n == 1 {
                Some(1)
            } else if n == 2 {
                Some(samples)
            } else {
                None
            },
        }
    }

    /// Can the decoder count the strips or tiles?
    fn is_countable(&self) -> (r: bool)
        ensures
            r == self.countable(),
    {
        let planes: u64 = match self.count_planes() {
            Some(n) => n,
            None => {
                return true;
            },
        };
        let (w, h): (u64, u64) = match (self.width, self.height) {
            (Field::Number(w), Field::Number(h)) => (w, h),
            _ => {
                return true;
            },
        };
        if w == 0 || h == 0 {
            return true;
        }
        if self.tiled {
            let (tw, th): (u64, u64) = match (self.tile_width, self.tile_height) {
                (Field::Number(tw), Field::Number(th)) => (tw, th),
                _ => {
                    return true;
                },
            };
            if tw == 0 || th == 0 {
                return true;
            }
            let most: u64 = usize::MAX as u64;
            proof {
                lemma_pieces_fit(w as int, tw as int);
                lemma_pieces_fit(h as int, th as int);
            }
            let across: u64 = (w - 1) / tw + 1;
            let down: u64 = (h - 1) / th + 1;
            let ghost all = down * across;
            assert(all <= all * planes) by (nonlinear_arith)
                requires
                    all == down * across,
                    down >= 1,
                    across >= 1,
                    planes >= 1,
            ;
            match down.checked_mul(across) {
                None => false,
                Some(n) => match n.checked_mul(planes) {
                    None => false,
                    Some(n) => n <= most,
                },
            }
        } else {
            let strips: u64 = match self.rows {
                Field::Missing => 1,
                Field::Unreadable => {
                    return true;
                },
                Field::Number(rows) => {
                    if rows == 0 {
                        return true;
                    }
                    proof {
                        lemma_pieces_fit(h as int, rows as int);
                    }
                    (h - 1) / rows + 1
                },
            };
            match strips.checked_mul(planes) {
                None => false,
                Some(n) => n <= u32::MAX as u64,
            }
        }
    }

    /// Adds an entry.
    fn take(&mut self, tag: u64, long: Field, short: Field)
        ensures
            *final(self) == old(self).with(tag as int, long, short),
    {
        if tag == 256 {
            self.width = long;
        } else if tag == 257 {
            self.height = long;
        } else if tag == 259 {
            self.compression = short;
        } else if tag == 277 {
            self.samples = short;
        } else if tag == 278 {
            self.rows = long;
        } else if tag == 284 {
            self.arrangement = short;
        } else if tag == 322 {
            self.tile_width = long;
        } else if tag == 323 {
            self.tile_height = long;
        } else if tag == 324 {
            self.tiled = true;
        }
    }
}

/// A side has at least one piece, and not more than it is long.
proof fn lemma_pieces_fit(side: int, piece: int)
    requires
        side >= 1,
        piece >= 1,
    ensures
        1 <= pieces_along(side, piece) <= side,
{
    vstd::arithmetic::div_mod::lemma_div_pos_is_pos(side - 1, piece);
    vstd::arithmetic::div_mod::lemma_div_is_ordered_by_denominator(side - 1, 1, piece);
}

/// What the entry at `at` says where a number of 32 bits, and where one of 16 bits,
/// is asked for.
fn fields(bytes: &Vec<u8>, layout: Layout, at: usize, kind: u64) -> (r: (Field, Field))
    requires
        kind == entry_type(bytes@, layout, at as int),
        at + 4 + 2 * layout.offset_size() <= bytes@.len(),
    ensures
        r.0 == long_field(bytes@, layout, at as int),
        r.1 == short_field(bytes@, layout, at as int),
{
    let len: usize = bytes.len();
    let offset_size: usize = if layout.wide {
        8
    } else {
        4
    };
    let size: usize = if kind == 1 || kind == 7 {
        1
    } else if kind == 3 {
        2
    } else if kind == 4 || kind == 13 {
        4
    } else if kind == 16 || kind == 18 {
        8
    } else {
        0
    };
    let unreadable = (Field::Unreadable, Field::Unreadable);
    let count: u64 = number(bytes, layout.little, at + 4, offset_size);
    if count != 1 || size == 0 {
        return unreadable;
    }
    let place: usize = at + 4 + offset_size;
    let v: u64 = if size <= offset_size {
        number(bytes, layout.little, place, size)
    } else {
        let far: u64 = number(bytes, layout.little, place, 4);
        if far > len as u64 || size > len - far as usize {
            return unreadable;
        }
        number(bytes, layout.little, far as usize, size)
    };
    if v > 0xFFFF_FFFF {
        unreadable
    } else if v > 0xFFFF || kind == 13 || kind == 18 {
        (Field::Number(v), Field::Unreadable)
    } else {
        (Field::Number(v), Field::Number(v))
    }
}

/// The directory whose entries, as many as `left`, begin at `at`, behind those of
/// `front`. There is none if the file ends before it.
pub open spec fn entries_from(
    bytes: Seq<u8>,
    layout: Layout,
    at: int,
    left: int,
    front: Directory,
) -> Option<Directory>
    decreases left,
{
    if left <= 0 {
        if at + layout.offset_size() > bytes.len() {
            None
        } else {
            Some(
                Directory {
                    next: number_at(bytes, layout.little, at, layout.offset_size()) as u64,
                    ..front
                },
            )
        }
    } else if at + 4 > bytes.len() {
        None
    } else {
        let kind = entry_type(bytes, layout, at);
        let end = at + layout.entry_size(kind);
        if end > bytes.len() {
            None
        } else if type_is_known(kind) {
            let tag = number_at(bytes, layout.little, at, 2);
            let long = long_field(bytes, layout, at);
            let short = short_field(bytes, layout, at);
            entries_from(bytes, layout, end, left - 1, front.with(tag, long, short))
        } else {
            entries_from(bytes, layout, end, left - 1, front)
        }
    }
}

/// The directory at the given place, if the file holds all of it.
pub open spec fn directory_at(bytes: Seq<u8>, layout: Layout, at: int) -> Option<Directory> {
    let entries = at + layout.count_size();
    if entries > bytes.len() {
        None
    } else {
        let n = number_at(bytes, layout.little, at, layout.count_size());
        entries_from(bytes, layout, entries, n, Directory::blank())
    }
}

/// How the file writes its numbers, if it begins as a TIFF file does.
pub open spec fn layout_of(bytes: Seq<u8>) -> Option<Layout> {
    if bytes.len() < 16 || bytes[0] != bytes[1] || (bytes[0] != 0x49 && bytes[0] != 0x4D) {
        None
    } else {
        let little = bytes[0] == 0x49;
        Some(Layout { little, wide: number_at(bytes, little, 2, 2) == 43 })
    }
}

/// The place of the first directory.
pub open spec fn first_place(bytes: Seq<u8>, layout: Layout) -> int {
    let at = if layout.wide {
        8
    } else {
        4
    };
    number_at(bytes, layout.little, at, layout.offset_size())
}

/// The directory of a page. There is none if the file does not hold all of it, or a
/// directory before it points to no other.
pub open spec fn page_directory(bytes: Seq<u8>, page: nat) -> Option<Directory>
    decreases page,
{
    match layout_of(bytes) {
        None => None,
        Some(layout) => if page == 0 {
            directory_at(bytes, layout, first_place(bytes, layout))
        } else {
            match page_directory(bytes, (page - 1) as nat) {
                None => None,
                Some(directory) => if directory.next == 0 {
                    None
                } else {
                    directory_at(bytes, layout, directory.next as int)
                },
            }
        },
    }
}

/// The decoder can be brought to the page: the number of the page's strips or tiles
/// can be held. A page that the file does not hold the directory of is refused by
/// the decoder at once.
pub open spec fn page_is_countable(bytes: Seq<u8>, page: nat) -> bool {
    page_directory(bytes, page) matches Some(directory) ==> directory.countable()
}

/// The page is JPEG-compressed.
pub open spec fn page_is_jpeg(bytes: Seq<u8>, page: nat) -> bool {
    page_directory(bytes, page) matches Some(directory) && directory.jpeg()
}

/// The directory at the given place, if the file holds all of it.
fn directory(bytes: &Vec<u8>, layout: Layout, place: u64) -> (r: Option<Directory>)
    ensures
        r == directory_at(bytes@, layout, place as int),
{
    let len: usize = bytes.len();
    let offset_size: usize = if layout.wide {
        8
    } else {
        4
    };
    let count_size: usize = if layout.wide {
        8
    } else {
        2
    };
    if place > len as u64 || count_size > len - place as usize {
        return None;
    }
    let start: usize = place as usize;
    let count: u64 = number(bytes, layout.little, start, count_size);
    let mut found = Directory {
        width: Field::Missing,
        height: Field::Missing,
        compression: Field::Missing,
        samples: Field::Missing,
        rows: Field::Missing,
        arrangement: Field::Missing,
        tile_width: Field::Missing,
        tile_height: Field::Missing,
        tiled: false,
        next: 0,
    };
    let mut at: usize = start + count_size;
    let mut left: u64 = count;
    while left > 0
        invariant
            len == bytes@.len(),
            at <= len,
            offset_size == layout.offset_size(),
            directory_at(bytes@, layout, place as int) == entries_from(
                bytes@,
                layout,
                at as int,
                left as int,
                found,
            ),
        decreases left,
    {
        if 4 > len - at {
            return None;
        }
        let kind: u64 = number(bytes, layout.little, at + 2, 2);
        let known: bool = (1 <= kind && kind <= 13) || (16 <= kind && kind <= 18);
        let size: usize = if layout.wide && known {
            20
        } else {
            12
        };
        if size > len - at {
            return None;
        }
        if known {
            let tag: u64 = number(bytes, layout.little, at, 2);
            let (long, short) = fields(bytes, layout, at, kind);
            found.take(tag, long, short);
        }
        at = at + size;
        left = left - 1;
    }
    if offset_size > len - at {
        return None;
    }
    found.next = number(bytes, layout.little, at, offset_size);
    Some(found)
}

/// A walk over the directories of a TIFF file.
pub(crate) struct Walk {
    layout: Layout,
    /// The directory of the current page, if there is one.
    current: Option<Directory>,
}

impl Walk {
    /// The walk has come to the given page of the file.
    pub closed spec fn is_at(self, bytes: Seq<u8>, page: nat) -> bool {
        &&& self.current == page_directory(bytes, page)
        &&& layout_of(bytes) matches Some(layout) ==> self.layout == layout
    }

    /// Begins at the first page.
    pub(crate) fn new(bytes: &Vec<u8>) -> (r: Walk)
        ensures
            r.is_at(bytes@, 0),
    {
        if bytes.len() < 16 || bytes[0] != bytes[1] || (bytes[0] != 0x49 && bytes[0] != 0x4D) {
            return Walk { layout: Layout { little: false, wide: false }, current: None };
        }
        let little: bool = bytes[0] == 0x49;
        let wide: bool = number(bytes, little, 2, 2) == 43;
        let place: u64 = if wide {
            number(bytes, little, 8, 8)
        } else {
            number(bytes, little, 4, 4)
        };
        let layout = Layout { little, wide };
        Walk { layout, current: directory(bytes, layout, place) }
    }

    /// Can the decoder be brought to the current page?
    pub(crate) fn is_countable(&self, bytes: Ghost<Seq<u8>>, page: Ghost<nat>) -> (r: bool)
        requires
            self.is_at(bytes@, page@),
        ensures
            r == page_is_countable(bytes@, page@),
    {
        match &self.current {
            None => true,
            Some(directory) => directory.is_countable(),
        }
    }

    /// Is the current page JPEG-compressed?
    pub(crate) fn is_jpeg(&self, bytes: Ghost<Seq<u8>>, page: Ghost<nat>) -> (r: bool)
        requires
            self.is_at(bytes@, page@),
        ensures
            r == page_is_jpeg(bytes@, page@),
    {
        match &self.current {
            None => false,
            Some(directory) => match directory.compression {
                Field::Number(n) => n == 7,
                _ => false,
            },
        }
    }

    /// Goes to the next page.
    pub(crate) fn advance(&mut self, bytes: &Vec<u8>, page: Ghost<nat>)
        requires
            old(self).is_at(bytes@, page@),
        ensures
            final(self).is_at(bytes@, page@ + 1),
    {
        let next: Option<Directory> = match &self.current {
            None => None,
            Some(here) => if here.next == 0 {
                None
            } else {
                directory(bytes, self.layout, here.next)
            },
        };
        self.current = next;
    }
}

} // verus!
