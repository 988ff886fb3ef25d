use vstd::prelude::*;

verus! {

/// One image of the rotation: its file name (no directory part) and how many times it
/// has been chosen since the counts were last shifted down.
#[derive(Debug)]
pub struct Wallpaper {
    pub file_name: String,
    pub count: usize,
}

impl View for Wallpaper {
    type V = (Seq<char>, usize);

    open spec fn view(&self) -> (Seq<char>, usize) {
        (self.file_name@, self.count)
    }
}

/// The abstract contents of a collection: `(name, count)` pairs in order.
pub open spec fn entries(v: Seq<Wallpaper>) -> Seq<(Seq<char>, usize)> {
    v.map_values(|w: Wallpaper| w@)
}

/// The names of a collection of entries, in order.
pub open spec fn names_of(e: Seq<(Seq<char>, usize)>) -> Seq<Seq<char>> {
    e.map_values(|p: (Seq<char>, usize)| p.0)
}

/// The views of a sequence of strings.
pub open spec fn views(v: Seq<String>) -> Seq<Seq<char>> {
    v.map_values(|s: String| s@)
}

impl Wallpaper {
    /// A newly discovered image, not yet shown.
    pub fn new(file_name: String) -> (r: Wallpaper)
        ensures
            r@ == (file_name@, 0usize),
    {
        Wallpaper { file_name, count: 0 }
    }
}

} // verus!
