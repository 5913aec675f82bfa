use vstd::prelude::*;

verus! {

/// A colour scheme: maps an escape value and the iteration cap to a packed
/// `0xRRGGBB` colour.
pub trait Coloring {
    /// The colour given to escape value `v` under cap `max`.
    spec fn color_of(&self, v: u32, max: u32) -> u32;

    /// The scheme's display name.
    spec fn name_of(&self) -> Seq<char>;

    /// Get a color in packed RGB format, given the mandelbrot value
    /// and the maximum mandelbrot value.
    fn get_color(&self, v: u32, max: u32) -> (r: u32)
        ensures
            r == self.color_of(v, max),
            r <= 0xffffff,
    ;

    /// Get a name for the coloring scheme, suitable for use in the UI.
    fn name(&self) -> (r: &'static str)
        ensures
            r@ == self.name_of(),
    ;
}

/// Escape values cycle through eighteen hues; the cap is black.
pub open spec fn rgb18_color(v: u32, max: u32) -> u32 {
    if max <= v {
        0x000000
    } else {
        seq![
            0xff3f3fu32, 0xff7f3f, 0xffbf3f, 0xffff3f, 0xbfff3f, 0x7fff3f,
            0x3fff3f, 0x3fff7f, 0x3fffbf, 0x3fffff, 0x3fbfff, 0x3f7fff,
            0x3f3fff, 0x7f3fff, 0xbf3fff, 0xff3fff, 0xff3fbf, 0xff3f7f,
        ][(v % 18) as int]
    }
}

/// Escape values cycle through red, green and blue; the cap is black.
pub open spec fn rgb3_color(v: u32, max: u32) -> u32 {
    if max <= v {
        0x000000
    } else {
        seq![0xff0000u32, 0x00ff00, 0x0000ff][(v % 3) as int]
    }
}

/// Escape values cycle through sixteen shades from black over red and
/// magenta to blue; the cap is dark grey.
pub open spec fn red_blue_color(v: u32, max: u32) -> u32 {
    if max <= v {
        0x404040
    } else {
        seq![
            0x000000u32, 0x400000, 0x800000, 0xc00000, 0xff0000, 0xff0040,
            0xff0080, 0xff00c0, 0xff00ff, 0xc000ff, 0x8000ff, 0x4000ff,
            0x0000ff, 0x0000c0, 0x000080, 0x000040,
        ][(v % 16) as int]
    }
}

/// Odd escape values are white, even ones black; the cap is grey.
pub open spec fn black_white_color(v: u32, max: u32) -> u32 {
    if max <= v {
        0x808080
    } else if v % 2 == 1 {
        0xffffff
    } else {
        0x000000
    }
}

/// Odd escape values are white, even ones black, the cap included.
pub open spec fn old_black_white_color(v: u32) -> u32 {
    if v % 2 == 1 {
        0xffffff
    } else {
        0x000000
    }
}

/// The closed set of colour schemes. A scheme's index in
/// `all_schemes` is its stable identity.
#[derive(Clone, Copy, PartialEq, Eq, Structural, Debug)]
pub enum ColorScheme {
    Rgb18,
    RgbAlternating,
    RedBlue,
    BlackWhite,
    OldBlackWhite,
}

impl Coloring for ColorScheme {
    open spec fn color_of(&self, v: u32, max: u32) -> u32 {
        match *self {
            ColorScheme::Rgb18 => rgb18_color(v, max),
            ColorScheme::RgbAlternating => rgb3_color(v, max),
            ColorScheme::RedBlue => red_blue_color(v, max),
            ColorScheme::BlackWhite => black_white_color(v, max),
            ColorScheme::OldBlackWhite => old_black_white_color(v),
        }
    }

    open spec fn name_of(&self) -> Seq<char> {
        match *self {
            ColorScheme::Rgb18 => "rgb18"@,
            ColorScheme::RgbAlternating => "rgb3"@,
            ColorScheme::RedBlue => "red-blue16"@,
            ColorScheme::BlackWhite => "black-white"@,
            ColorScheme::OldBlackWhite => "old-bw"@,
        }
    }

    fn get_color(&self, v: u32, max: u32) -> (r: u32) {
        match *self {
            ColorScheme::Rgb18 => rgb18_get_color(v, max),
            ColorScheme::RgbAlternating => rgb3_get_color(v, max),
            ColorScheme::RedBlue => red_blue_get_color(v, max),
            ColorScheme::BlackWhite => black_white_get_color(v, max),
            ColorScheme::OldBlackWhite => old_black_white_get_color(v),
        }
    }

    fn name(&self) -> (r: &'static str) {
        match *self {
            ColorScheme::Rgb18 => "rgb18",
            ColorScheme::RgbAlternating => "rgb3",
            ColorScheme::RedBlue => "red-blue16",
            ColorScheme::BlackWhite => "black-white",
            ColorScheme::OldBlackWhite => "old-bw",
        }
    }
}

fn rgb18_get_color(v: u32, max: u32) -> (r: u32)
    ensures
        r == rgb18_color(v, max),
        r <= 0xffffff,
{
    if max <= v {
        return 0x000000;
    }
    match v % 18 {
        0 => 0xff3f3f,
        1 => 0xff7f3f,
        2 => 0xffbf3f,
        3 => 0xffff3f,
        4 => 0xbfff3f,
        5 => 0x7fff3f,
        6 => 0x3fff3f,
        7 => 0x3fff7f,
        8 => 0x3fffbf,
        9 => 0x3fffff,
        10 => 0x3fbfff,
        11 => 0x3f7fff,
        12 => 0x3f3fff,
        13 => 0x7f3fff,
        14 => 0xbf3fff,
        15 => 0xff3fff,
        16 => 0xff3fbf,
        _ => 0xff3f7f,
    }
}

fn rgb3_get_color(v: u32, max: u32) -> (r: u32)
    ensures
        r == rgb3_color(v, max),
        r <= 0xffffff,
{
    if max <= v {
        return 0x000000;
    }
    match v % 3 {
        0 => 0xff0000,
        1 => 0x00ff00,
        _ => 0x0000ff,
    }
}

fn red_blue_get_color(v: u32, max: u32) -> (r: u32)
    ensures
        r == red_blue_color(v, max),
        r <= 0xffffff,
{
    if max <= v {
        return 0x404040;
    }
    match v % 16 {
        0 => 0x000000,
        1 => 0x400000,
        2 => 0x800000,
        3 => 0xc00000,
        4 => 0xff0000,
        5 => 0xff0040,
        6 => 0xff0080,
        7 => 0xff00c0,
        8 => 0xff00ff,
        9 => 0xc000ff,
        10 => 0x8000ff,
        11 => 0x4000ff,
        12 => 0x0000ff,
        13 => 0x0000c0,
        14 => 0x000080,
        _ => 0x000040,
    }
}

fn black_white_get_color(v: u32, max: u32) -> (r: u32)
    ensures
        r == black_white_color(v, max),
        r <= 0xffffff,
{
    if max <= v {
        0x808080
    } else if v % 2 == 1 {
        0xffffff
    } else {
        0x0
    }
}

fn old_black_white_get_color(v: u32) -> (r: u32)
    ensures
        r == old_black_white_color(v),
        r <= 0xffffff,
{
    if v % 2 == 1 {
        0xffffff
    } else {
        0x0
    }
}

/// Every scheme, in the order of its stable index.
pub open spec fn all_schemes() -> Seq<ColorScheme> {
    seq![
        ColorScheme::Rgb18,
        ColorScheme::RgbAlternating,
        ColorScheme::RedBlue,
        ColorScheme::BlackWhite,
        ColorScheme::OldBlackWhite,
    ]
}

/// All colour schemes, indexed by their stable index.
pub fn all_colorings() -> (r: Vec<ColorScheme>)
    ensures
        r@ == all_schemes(),
{
    let r = vec![
        ColorScheme::Rgb18,
        ColorScheme::RgbAlternating,
        ColorScheme::RedBlue,
        ColorScheme::BlackWhite,
        ColorScheme::OldBlackWhite,
    ];
    assert(r@ =~= all_schemes());
    r
}

/// The catalogue of colour schemes offered for selection.
pub struct ColorInfo {
    colorings: Vec<ColorScheme>,
}

impl View for ColorInfo {
    type V = Seq<ColorScheme>;

    closed spec fn view(&self) -> Seq<ColorScheme> {
        self.colorings@
    }
}

impl ColorInfo {
    pub fn new() -> (r: ColorInfo)
        ensures
            r@ == all_schemes(),
    {
        ColorInfo { colorings: all_colorings() }
    }

    pub fn len(&self) -> (r: usize)
        ensures
            r == self@.len(),
    {
        self.colorings.len()
    }

    /// The scheme with index `i`.
    pub fn scheme(&self, i: usize) -> (r: &ColorScheme)
        requires
            i < self@.len(),
        ensures
            *r == self@[i as int],
    {
        &self.colorings[i]
    }

    /// The names of the schemes, in index order.
    pub fn names_iter(&self) -> (r: NameIter)
        ensures
            r@ == self@,
    {
        NameIter { schemes: self.colorings.clone(), pos: 0 }
    }
}

/// Hands out the names of a sequence of schemes, one at a time.
pub struct NameIter {
    schemes: Vec<ColorScheme>,
    pos: usize,
}

impl NameIter {
    #[verifier::type_invariant]
    spec fn inv(self) -> bool {
        self.pos <= self.schemes.len()
    }
}

impl View for NameIter {
    type V = Seq<ColorScheme>;

    /// The schemes whose names are still to come.
    closed spec fn view(&self) -> Seq<ColorScheme> {
        self.schemes@.subrange(self.pos as int, self.schemes@.len() as int)
    }
}

impl NameIter {
    /// The name of the next scheme, or `None` once all have been given.
    pub fn next(&mut self) -> (r: Option<&'static str>)
        ensures
            old(self)@.len() == 0 ==> r.is_none() && final(self)@ == old(self)@,
            old(self)@.len() > 0 ==> r.is_some() && r.unwrap()@ == old(self)@[0].name_of()
                && final(self)@ == old(self)@.drop_first(),
    {
        proof {
            use_type_invariant(&*self);
        }
        if self.pos < self.schemes.len() {
            let name = self.schemes[self.pos].name();
            self.pos = self.pos + 1;
            assert(self@ =~= old(self)@.drop_first());
            Some(name)
        } else {
            None
        }
    }

    /// Lower and upper bound of the number of names still to come.
    pub fn size_hint(&self) -> (r: (usize, Option<usize>))
        ensures
            r.0 == self@.len(),
            r.1 == Some(self@.len() as usize),
    {
        proof {
            use_type_invariant(self);
        }
        let n = self.schemes.len() - self.pos;
        (n, Some(n))
    }
}

} // verus!
