//! The colors that pixel values are shown in.

use vstd::prelude::*;

verus! {

/// Red, green and blue.
pub type Color = (u8, u8, u8);

/// The number of colors in a colormap.
pub const LUT_LEN: usize = 256;

#[derive(Clone, Copy, PartialEq, Eq, Structural, Debug)]
pub enum Colormap {
    Viridis,
    Gray,
    Hot,
}

impl Colormap {
    pub const ALL: [Colormap; 3] = [Colormap::Viridis, Colormap::Gray, Colormap::Hot];

    pub open spec fn label_spec(self) -> Seq<char> {
        match self {
            Colormap::Viridis => "Viridis"@,
            Colormap::Gray => "Gray"@,
            Colormap::Hot => "Hot"@,
        }
    }

    pub fn label(self) -> (r: &'static str)
        ensures
            r@ == self.label_spec(),
    {
        match self {
            Colormap::Viridis => "Viridis",
            Colormap::Gray => "Gray",
            Colormap::Hot => "Hot",
        }
    }

    /// Evenly spaced colors, from the lowest value to the highest.
    pub open spec fn stops_spec(self) -> Seq<Color> {
        match self {
            Colormap::Viridis => seq![
                (68, 1, 84),
                (72, 40, 120),
                (62, 74, 137),
                (49, 104, 142),
                (38, 130, 142),
                (31, 158, 137),
                (53, 183, 121),
                (109, 205, 89),
                (180, 222, 44),
                (253, 231, 37),
            ],
            Colormap::Gray => seq![(0, 0, 0), (255, 255, 255)],
            Colormap::Hot => seq![(0, 0, 0), (255, 0, 0), (255, 255, 0), (255, 255, 255)],
        }
    }

    /// Evenly spaced colors, from the lowest value to the highest.
    fn stops(self) -> (r: Vec<Color>)
        ensures
            r@ == self.stops_spec(),
            2 <= r@.len() <= 10,
    {
        let r: Vec<Color> = match self {
            Colormap::Viridis => vec![
                (68, 1, 84),
                (72, 40, 120),
                (62, 74, 137),
                (49, 104, 142),
                (38, 130, 142),
                (31, 158, 137),
                (53, 183, 121),
                (109, 205, 89),
                (180, 222, 44),
                (253, 231, 37),
            ],
            Colormap::Gray => vec![(0, 0, 0), (255, 255, 255)],
            Colormap::Hot => vec![(0, 0, 0), (255, 0, 0), (255, 255, 0), (255, 255, 255)],
        };
        assert(r@ =~= self.stops_spec());
        r
    }

    /// The colors of the map: those between two stops are mixed of both.
    pub open spec fn lut_spec(self) -> Seq<Color> {
        Seq::new(LUT_LEN as nat, |i: int| color_at(self.stops_spec(), i))
    }

    /// The colors of the map.
    pub fn lut(self) -> (r: Vec<Color>)
        ensures
            r@ == self.lut_spec(),
            r@.len() == LUT_LEN,
    {
        let stops = self.stops();
        let segments: usize = stops.len() - 1;
        let mut out: Vec<Color> = Vec::new();
        let mut i: usize = 0;
        while i < LUT_LEN
            invariant
                i <= LUT_LEN,
                stops@ == self.stops_spec(),
                1 <= segments <= 9,
                segments == stops@.len() - 1,
                out@ == self.lut_spec().take(i as int),
            decreases LUT_LEN - i,
        {
            assert(0 <= i * segments <= 255 * 9) by (nonlinear_arith)
                requires
                    0 <= i <= 255,
                    0 <= segments <= 9,
            ;
            assert(i * segments <= 255 * segments) by (nonlinear_arith)
                requires
                    0 <= i <= 255,
                    0 <= segments,
            ;
            let at: usize = i * segments;
            let k: usize = if at / 255 < segments {
                at / 255
            } else {
                segments - 1
            };
            let part: usize = at - k * 255;
            let a = stops[k];
            let b = stops[k + 1];
            out.push((mix(a.0, b.0, part), mix(a.1, b.1, part), mix(a.2, b.2, part)));
            i = i + 1;
            assert(out@ =~= self.lut_spec().take(i as int));
        }
        assert(self.lut_spec().take(i as int) =~= self.lut_spec());
        out
    }
}

/// The mixture of two values, `part` of 255 parts of the second.
pub open spec fn mixed(a: u8, b: u8, part: int) -> u8 {
    ((a * (255 - part) + b * part + 127) / 255) as u8
}

/// The mixture of two values, `part` of 255 parts of the second.
fn mix(a: u8, b: u8, part: usize) -> (r: u8)
    requires
        part <= 255,
    ensures
        r == mixed(a, b, part as int),
{
    let whole: usize = 255;
    let rest: usize = whole - part;
    let x: usize = a as usize;
    let y: usize = b as usize;
    assert(0 <= x * rest <= 255 * rest && 0 <= y * part <= 255 * part) by (nonlinear_arith)
        requires
            0 <= x <= 255,
            0 <= y <= 255,
            0 <= rest,
            0 <= part,
    ;
    ((x * rest + y * part + 127) / 255) as u8
}

/// The `i`-th color between evenly spaced stops.
pub open spec fn color_at(stops: Seq<Color>, i: int) -> Color {
    let segments = stops.len() - 1;
    let at = i * segments;
    let k = if at / 255 < segments {
        at / 255
    } else {
        segments - 1
    };
    let part = at - k * 255;
    let a = stops[k];
    let b = stops[k + 1];
    (mixed(a.0, b.0, part), mixed(a.1, b.1, part), mixed(a.2, b.2, part))
}

/// A map begins with its first stop and ends with its last.
pub proof fn a_map_keeps_its_ends(map: Colormap)
    ensures
        map.lut_spec()[0] == map.stops_spec()[0],
        map.lut_spec()[255] == map.stops_spec().last(),
{
    let stops = map.stops_spec();
    let n = stops.len() - 1;
    assert(0int * n == 0) by (nonlinear_arith);
    lemma_mix_ends(stops[0].0, stops[1].0);
    lemma_mix_ends(stops[0].1, stops[1].1);
    lemma_mix_ends(stops[0].2, stops[1].2);
    lemma_mix_ends(stops[n - 1].0, stops[n].0);
    lemma_mix_ends(stops[n - 1].1, stops[n].1);
    lemma_mix_ends(stops[n - 1].2, stops[n].2);
}

proof fn lemma_mix_ends(a: u8, b: u8)
    ensures
        mixed(a, b, 0) == a,
        mixed(a, b, 255) == b,
{
}

} // verus!
