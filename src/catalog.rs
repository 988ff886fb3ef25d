use vstd::prelude::*;
use crate::entry::views;
use crate::text::same_text;

verus! {

/// The index of the last `'.'` among the first `k` characters, or -1.
pub open spec fn last_dot_before(s: Seq<char>, k: int) -> int
    decreases k,
{
    if k <= 0 {
        -1
    } else if s[k - 1] == '.' {
        k - 1
    } else {
        last_dot_before(s, k - 1)
    }
}

/// The extension of a file name, split as a path's file name is: the text
/// after the last dot, unless there is no dot, the only dot opens the name,
/// or the name is `..`.
pub open spec fn extension_of(name: Seq<char>) -> Option<Seq<char>> {
    let k = last_dot_before(name, name.len() as int);
    if k <= 0 || name == seq!['.', '.'] {
        None
    } else {
        Some(name.subrange(k + 1, name.len() as int))
    }
}

/// The image formats that are rotated, matched exactly and case-sensitively.
pub open spec fn is_image_extension(e: Seq<char>) -> bool {
    ||| e == "jpg"@
    ||| e == "jpeg"@
    ||| e == "png"@
    ||| e == "gif"@
    ||| e == "pnm"@
    ||| e == "tga"@
    ||| e == "tiff"@
    ||| e == "webp"@
    ||| e == "bmp"@
    ||| e == "farbfeld"@
}

/// Whether a file name has one of the image extensions.
pub open spec fn is_image_name(name: Seq<char>) -> bool {
    match extension_of(name) {
        Some(e) => is_image_extension(e),
        None => false,
    }
}

/// The image names among `names`, in their order.
pub open spec fn image_names(names: Seq<Seq<char>>) -> Seq<Seq<char>>
    decreases names.len(),
{
    if names.len() == 0 {
        Seq::empty()
    } else {
        let p = image_names(names.drop_last());
        if is_image_name(names.last()) {
            p.push(names.last())
        } else {
            p
        }
    }
}

/// Whether an extension is one of the image formats.
pub fn is_img_file(extension: &str) -> (r: bool)
    ensures
        r == is_image_extension(extension@),
{
    same_text(extension, "jpg") || same_text(extension, "jpeg") || same_text(extension, "png")
        || same_text(extension, "gif") || same_text(extension, "pnm") || same_text(extension, "tga")
        || same_text(extension, "tiff") || same_text(extension, "webp") || same_text(extension, "bmp")
        || same_text(extension, "farbfeld")
}

/// Whether a file name has one of the image extensions.
pub fn is_img_name(name: &str) -> (r: bool)
    ensures
        r == is_image_name(name@),
{
    let n = name.unicode_len();
    let mut k: usize = n;
    while k > 0 && name.get_char(k - 1) != '.'
        invariant
            n == name@.len(),
            k <= n,
            last_dot_before(name@, n as int) == last_dot_before(name@, k as int),
        decreases k,
    {
        k = k - 1;
    }
    // `k` is one past the last dot, or 0 when there is none.
    if k <= 1 {
        return false;
    }
    if n == 2 && name.get_char(0) == '.' {
        assert(name@ =~= seq!['.', '.']);
        return false;
    }
    assert(name@ != seq!['.', '.']) by {
        if name@ =~= seq!['.', '.'] {
            assert(name@[0] == '.');
        }
    }
    let ext = name.substring_char(k, n);
    is_img_file(ext)
}

/// The names of image files among the names of a directory's entries, in
/// their order.
pub fn get_wallpapers_from_path(entry_names: &Vec<String>) -> (r: Vec<String>)
    ensures
        views(r@) == image_names(views(entry_names@)),
{
    let ghost all = views(entry_names@);
    let mut out: Vec<String> = Vec::new();
    let mut i: usize = 0;
    while i < entry_names.len()
        invariant
            i <= entry_names@.len(),
            all == views(entry_names@),
            views(out@) == image_names(all.take(i as int)),
        decreases entry_names@.len() - i,
    {
        assert(all.take(i as int + 1).drop_last() == all.take(i as int));
        assert(all.take(i as int + 1).last() == entry_names@[i as int]@);
        if is_img_name(entry_names[i].as_str()) {
            let ghost before = out@;
            out.push(entry_names[i].clone());
            assert(views(out@) =~= views(before).push(entry_names@[i as int]@));
        }
        i = i + 1;
    }
    assert(all.take(i as int) == all);
    out
}

} // verus!
