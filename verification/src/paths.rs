//! Reading Unix paths: their final component, extension, parent and
//! components, as `std::path::Path` computes them.
use vstd::prelude::*;

verus! {

/// What `std::path::Path::file_name` returns for the path `path`, by the
/// Unix rules for paths.
pub uninterp spec fn path_file_name(path: Seq<char>) -> Option<Seq<char>>;

/// What `std::path::Path::parent` returns for the path `path`, by the Unix
/// rules for paths.
pub uninterp spec fn path_parent(path: Seq<char>) -> Option<Seq<char>>;

/// The texts of the components that `std::path::Path::components` yields for
/// the path `path`, in order, by the Unix rules for paths.
pub uninterp spec fn path_components(path: Seq<char>) -> Seq<Seq<char>>;

/// The texts of a sequence of strings.
pub open spec fn views(v: Seq<String>) -> Seq<Seq<char>> {
    v.map_values(|s: String| s@)
}

/// The text of an optional string.
pub open spec fn opt_view(o: Option<String>) -> Option<Seq<char>> {
    match o {
        Some(s) => Some(s@),
        None => None,
    }
}

/// The index of the last `.` in `name`, or -1 when it has none.
pub open spec fn last_dot(name: Seq<char>) -> int
    decreases name.len(),
{
    if name.len() == 0 {
        -1
    } else if name.last() == '.' {
        name.len() - 1
    } else {
        last_dot(name.drop_last())
    }
}

/// The extension of a file whose final component is `file_name`, as the
/// documentation of `Path::extension` defines it: none without a file name,
/// none without a `.` in it, none when its only `.` is its first character,
/// and otherwise what follows the final `.`.
pub open spec fn extension_of(file_name: Option<Seq<char>>) -> Option<Seq<char>> {
    match file_name {
        None => None,
        Some(name) => {
            let d: int = last_dot(name);
            if d <= 0 {
                None
            } else {
                Some(name.subrange(d + 1, name.len() as int))
            }
        },
    }
}

/// Whether some component of a path is one of `skips`.
pub open spec fn mentions_any(components: Seq<Seq<char>>, skips: Seq<Seq<char>>) -> bool {
    exists|i: int, j: int|
        0 <= i < components.len() && 0 <= j < skips.len() && #[trigger] components[i]
            == #[trigger] skips[j]
}

/// Calls `Path::file_name`; the contract states that the result is
/// `path_file_name` of the path. The final component of a path held in a
/// `str` is valid UTF-8, so the conversion loses nothing.
#[verifier::external_body]
pub(crate) fn file_name_of(path: &str) -> (r: Option<String>)
    ensures
        opt_view(r) == path_file_name(path@),
{
    std::path::Path::new(path).file_name().map(|n| n.to_string_lossy().into_owned())
}

/// Calls `Path::extension`; the contract states what its documentation
/// says: the extension is computed from the file name as `extension_of`
/// describes.
#[verifier::external_body]
pub(crate) fn extension_of_path(path: &str) -> (r: Option<String>)
    ensures
        opt_view(r) == extension_of(path_file_name(path@)),
{
    std::path::Path::new(path).extension().map(|e| e.to_string_lossy().into_owned())
}

/// Calls `Path::parent`; the contract states that the result is
/// `path_parent` of the path.
#[verifier::external_body]
pub(crate) fn parent_of(path: &str) -> (r: Option<String>)
    ensures
        opt_view(r) == path_parent(path@),
{
    std::path::Path::new(path).parent().map(|p| p.to_string_lossy().into_owned())
}

/// Calls `Path::components`; the contract states that the texts of the
/// components, in order, are `path_components` of the path.
#[verifier::external_body]
pub(crate) fn components_of(path: &str) -> (r: Vec<String>)
    ensures
        views(r@) == path_components(path@),
{
    std::path::Path::new(path).components().map(|c| c.as_os_str().to_string_lossy().into_owned()).collect()
}

/// Whether some component of `path` equals one of the directory names in
/// `skips`.
pub fn path_contains_any_skip(path: &str, skips: &Vec<String>) -> (r: bool)
    ensures
        r == mentions_any(path_components(path@), views(skips@)),
{
    if skips.len() == 0 {
        return false;
    }
    let components = components_of(path);
    let ghost comps = views(components@);
    let ghost sk = views(skips@);
    let mut i: usize = 0;
    while i < components.len()
        invariant
            i <= components.len(),
            comps == views(components@),
            sk == views(skips@),
            comps == path_components(path@),
            forall|a: int, b: int|
                0 <= a < i && 0 <= b < sk.len() ==> #[trigger] comps[a] != #[trigger] sk[b],
        decreases components.len() - i,
    {
        let mut j: usize = 0;
        while j < skips.len()
            invariant
                i < components.len(),
                j <= skips.len(),
                comps == views(components@),
                sk == views(skips@),
                comps == path_components(path@),
                forall|b: int| 0 <= b < j ==> comps[i as int] != #[trigger] sk[b],
            decreases skips.len() - j,
        {
            if components[i] == skips[j] {
                assert(comps[i as int] == sk[j as int]);
                return true;
            }
            j = j + 1;
        }
        i = i + 1;
    }
    false
}

} // verus!
