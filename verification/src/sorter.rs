//! Gathering the media files of a folder, removing files whose contents
//! repeat, and deciding where each file moves.
use vstd::prelude::*;
use vstd::string::*;
use vstd::hash_set::StringHashSet;
use std::collections::HashSet;
use crate::paths;
use crate::paths::{path_contains_any_skip, parent_of};
use crate::file;
use crate::file::{MediaFile, UsedNames};
use crate::date::DateTaken;

verus! {

broadcast use {vstd::hash_set::group_hash_set_axioms, vstd::std_specs::hash::group_hash_axioms};

// ---------------------------------------------------------------- sets of media files

/// Whether no two files of `s` are at the same location.
pub open spec fn distinct_locs(s: Seq<MediaFile>) -> bool {
    forall|i: int, j: int|
        0 <= i < s.len() && 0 <= j < s.len() && i != j ==> #[trigger] s[i].file_loc@
            != #[trigger] s[j].file_loc@
}

/// The files of `s` by location: for each location, the hash of the last
/// file of `s` there.
pub open spec fn loc_map(s: Seq<MediaFile>) -> Map<Seq<char>, Option<u64>>
    decreases s.len(),
{
    if s.len() == 0 {
        Map::empty()
    } else {
        loc_map(s.drop_last()).insert(s.last().file_loc@, s.last().hash)
    }
}

/// Appending a file adds its location and hash.
pub proof fn lemma_loc_map_push(s: Seq<MediaFile>, f: MediaFile)
    ensures
        loc_map(s.push(f)) == loc_map(s).insert(f.file_loc@, f.hash),
{
    assert(s.push(f).drop_last() =~= s);
}

/// The locations of `loc_map(s)` are those of the files of `s`, and with
/// distinct locations each file's hash is kept.
pub proof fn lemma_loc_map(s: Seq<MediaFile>)
    ensures
        forall|l: Seq<char>|
            #[trigger] loc_map(s).contains_key(l) <==> exists|i: int|
                0 <= i < s.len() && s[i].file_loc@ == l,
        distinct_locs(s) ==> forall|i: int|
            0 <= i < s.len() ==> loc_map(s)[#[trigger] s[i].file_loc@] == s[i].hash,
        distinct_locs(s) ==> loc_map(s).dom().len() == s.len(),
        loc_map(s).dom().finite(),
    decreases s.len(),
{
    if s.len() > 0 {
        let p = s.drop_last();
        lemma_loc_map(p);
        assert forall|l: Seq<char>| #[trigger]
            loc_map(s).contains_key(l) <==> exists|i: int| 0 <= i < s.len() && s[i].file_loc@ == l by {
            if loc_map(s).contains_key(l) && l != s.last().file_loc@ {
                let i: int = choose|i: int| 0 <= i < p.len() && p[i].file_loc@ == l;
                assert(s[i] == p[i]);
            }
            if exists|i: int| 0 <= i < s.len() && s[i].file_loc@ == l {
                let i: int = choose|i: int| 0 <= i < s.len() && s[i].file_loc@ == l;
                if i < s.len() - 1 {
                    assert(p[i] == s[i]);
                }
            }
        }
        if distinct_locs(s) {
            assert(distinct_locs(p)) by {
                assert forall|i: int, j: int|
                    0 <= i < p.len() && 0 <= j < p.len() && i != j implies #[trigger] p[i].file_loc@
                    != #[trigger] p[j].file_loc@ by {
                    assert(s[i] == p[i] && s[j] == p[j]);
                }
            }
            assert(!loc_map(p).contains_key(s.last().file_loc@)) by {
                if loc_map(p).contains_key(s.last().file_loc@) {
                    let i: int = choose|i: int| 0 <= i < p.len() && p[i].file_loc@ == s.last().file_loc@;
                    assert(s[i] == p[i]);
                    assert(s[i].file_loc@ == s[s.len() - 1].file_loc@);
                }
            }
            assert forall|i: int| 0 <= i < s.len() implies loc_map(s)[#[trigger] s[i].file_loc@]
                == s[i].hash by {
                if i < s.len() - 1 {
                    assert(p[i] == s[i]);
                    assert(s[i].file_loc@ != s[s.len() - 1].file_loc@);
                }
            }
            assert(loc_map(s).dom() =~= loc_map(p).dom().insert(s.last().file_loc@));
        }
        assert(loc_map(s).dom() =~= loc_map(p).dom().insert(s.last().file_loc@));
    } else {
        assert(loc_map(s).dom() =~= Set::<Seq<char>>::empty());
    }
}

/// A set of media files, told apart by their location, as a
/// `HashSet<MediaFile>` holds them: each location at most once.
pub struct MediaSet {
    files: Vec<MediaFile>,
    locs: StringHashSet,
}

impl View for MediaSet {
    type V = Map<Seq<char>, Option<u64>>;

    /// The hash of the file at each location of the set.
    closed spec fn view(&self) -> Map<Seq<char>, Option<u64>> {
        loc_map(self.files@)
    }
}

/// Appending a file at a new location keeps the locations distinct.
proof fn lemma_push_distinct(s: Seq<MediaFile>, f: MediaFile)
    requires
        distinct_locs(s),
        !loc_map(s).contains_key(f.file_loc@),
    ensures
        distinct_locs(s.push(f)),
{
    lemma_loc_map(s);
    let t = s.push(f);
    assert forall|i: int, j: int|
        0 <= i < t.len() && 0 <= j < t.len() && i != j implies #[trigger] t[i].file_loc@
        != #[trigger] t[j].file_loc@ by {
        if i < s.len() && j < s.len() {
            assert(t[i] == s[i] && t[j] == s[j]);
        } else if i < s.len() {
            assert(t[i] == s[i]);
            assert(loc_map(s).contains_key(s[i].file_loc@));
        } else {
            assert(t[j] == s[j]);
            assert(loc_map(s).contains_key(s[j].file_loc@));
        }
    }
}

impl MediaSet {
    /// Each location is held once, and the index of locations matches the
    /// files.
    #[verifier::type_invariant]
    spec fn locations_indexed(self) -> bool {
        &&& distinct_locs(self.files@)
        &&& self.locs@ == loc_map(self.files@).dom()
    }

    /// The empty set.
    pub fn new() -> (r: MediaSet)
        ensures
            r@ == Map::<Seq<char>, Option<u64>>::empty(),
    {
        let files: Vec<MediaFile> = Vec::new();
        let locs = StringHashSet::new();
        assert(locs@ =~= loc_map(files@).dom());
        MediaSet { files, locs }
    }

    /// How many files the set holds.
    pub fn len(&self) -> (r: usize)
        ensures
            r == self@.dom().len(),
    {
        proof {
            use_type_invariant(self);
            lemma_loc_map(self.files@);
        }
        self.files.len()
    }

    /// Whether the set holds a file at the location of `file`.
    pub fn contains(&self, file: &MediaFile) -> (r: bool)
        ensures
            r == self@.contains_key(file.file_loc@),
    {
        proof {
            use_type_invariant(self);
        }
        self.locs.contains(file.file_loc.as_str())
    }

    /// Adds `file` unless the set holds a file at its location already;
    /// true when it was added.
    pub fn insert(&mut self, file: MediaFile) -> (r: bool)
        ensures
            r == !old(self)@.contains_key(file.file_loc@),
            final(self)@ == if r {
                old(self)@.insert(file.file_loc@, file.hash)
            } else {
                old(self)@
            },
    {
        proof {
            use_type_invariant(&*self);
            lemma_loc_map(self.files@);
        }
        if self.locs.contains(file.file_loc.as_str()) {
            return false;
        }
        let mut taken = MediaSet::new();
        std::mem::swap(self, &mut taken);
        proof {
            use_type_invariant(&taken);
        }
        let MediaSet { mut files, mut locs } = taken;
        let ghost old_files = files@;
        locs.insert(file.file_loc.clone());
        files.push(file);
        proof {
            lemma_loc_map_push(old_files, file);
            lemma_push_distinct(old_files, file);
            assert(locs@ =~= loc_map(files@).dom());
        }
        *self = MediaSet { files, locs };
        true
    }

    /// The files of the set, in the order they were added.
    pub closed spec fn elements(&self) -> Seq<MediaFile> {
        self.files@
    }

    /// The files of the set, each location once.
    pub fn files(&self) -> (r: &Vec<MediaFile>)
        ensures
            r@ == self.elements(),
            distinct_locs(r@),
            loc_map(r@) == self@,
    {
        proof {
            use_type_invariant(self);
        }
        &self.files
    }
}

/// One step of keeping the files of `fv` whose locations are in `keep`:
/// when `r` holds those among the first `i`, it holds those among the first
/// `i + 1` once `fv[i]` is appended if its location is in `keep`.
proof fn lemma_keep_step(fv: Seq<MediaFile>, r: Seq<MediaFile>, i: int, keep: Set<Seq<char>>)
    requires
        distinct_locs(fv),
        0 <= i < fv.len(),
        distinct_locs(r),
        loc_map(r) == loc_map(fv.take(i)).restrict(keep),
    ensures
        keep.contains(fv[i].file_loc@) ==> distinct_locs(r.push(fv[i])) && loc_map(r.push(fv[i]))
            == loc_map(fv.take(i + 1)).restrict(keep),
        !keep.contains(fv[i].file_loc@) ==> loc_map(r) == loc_map(fv.take(i + 1)).restrict(keep),
{
    let prefix = fv.take(i);
    assert(fv.take(i + 1) =~= prefix.push(fv[i]));
    lemma_loc_map_push(prefix, fv[i]);
    lemma_loc_map(prefix);
    assert(!loc_map(prefix).contains_key(fv[i].file_loc@)) by {
        if loc_map(prefix).contains_key(fv[i].file_loc@) {
            let j: int = choose|j: int| 0 <= j < prefix.len() && prefix[j].file_loc@ == fv[i].file_loc@;
            assert(fv[j] == prefix[j]);
        }
    }
    if keep.contains(fv[i].file_loc@) {
        lemma_loc_map_push(r, fv[i]);
        lemma_push_distinct(r, fv[i]);
        assert(loc_map(r.push(fv[i])) =~= loc_map(fv.take(i + 1)).restrict(keep));
    } else {
        assert(loc_map(r) =~= loc_map(fv.take(i + 1)).restrict(keep));
    }
}

// ---------------------------------------------------------------- gathering

/// An entry of a directory walk: a path, and whether it is a regular file.
pub struct WalkEntry {
    pub path: String,
    pub is_file: bool,
}

/// Whether a walked entry is gathered: it is a file of an image or a video,
/// and none of its components is a skipped directory.
pub open spec fn gathered(e: WalkEntry, skipdirs: Seq<Seq<char>>) -> bool {
    &&& !paths::mentions_any(paths::path_components(e.path@), skipdirs)
    &&& e.is_file
    &&& file::is_media_loc(e.path@)
}

/// The locations gathered from the entries of a directory walk.
pub open spec fn gathered_locs(entries: Seq<WalkEntry>, skipdirs: Seq<Seq<char>>) -> Set<Seq<char>> {
    Set::new(
        |l: Seq<char>|
            exists|i: int| 0 <= i < entries.len() && entries[i].path@ == l && gathered(entries[i], skipdirs),
    )
}

/// Law: gathering is monotone in the walk: when every entry of one walk is
/// an entry of another (as the entries of a walk one level deep are among
/// those of the recursive walk of the same folder), every file gathered from
/// the first is gathered from the second.
pub proof fn law_gathering_monotone(
    shallow: Seq<WalkEntry>,
    deep: Seq<WalkEntry>,
    skipdirs: Seq<Seq<char>>,
)
    requires
        forall|i: int| 0 <= i < shallow.len() ==> #[trigger] deep.contains(shallow[i]),
    ensures
        gathered_locs(shallow, skipdirs).subset_of(gathered_locs(deep, skipdirs)),
{
    assert forall|l: Seq<char>| gathered_locs(shallow, skipdirs).contains(l) implies gathered_locs(
        deep,
        skipdirs,
    ).contains(l) by {
        let i: int = choose|i: int|
            0 <= i < shallow.len() && shallow[i].path@ == l && gathered(shallow[i], skipdirs);
        assert(deep.contains(shallow[i]));
        let j: int = choose|j: int| 0 <= j < deep.len() && deep[j] == shallow[i];
        assert(deep[j].path@ == l && gathered(deep[j], skipdirs));
    }
}

/// Law: a path any of whose components is any of the skipped directory
/// names is never gathered, whichever entry of the walk it comes from.
pub proof fn law_skipped_dirs_never_gathered(
    entries: Seq<WalkEntry>,
    skipdirs: Seq<Seq<char>>,
    p: Seq<char>,
    c: int,
    j: int,
)
    requires
        0 <= c < paths::path_components(p).len(),
        0 <= j < skipdirs.len(),
        paths::path_components(p)[c] == skipdirs[j],
    ensures
        !gathered_locs(entries, skipdirs).contains(p),
{
    if gathered_locs(entries, skipdirs).contains(p) {
        let i: int = choose|i: int|
            0 <= i < entries.len() && entries[i].path@ == p && gathered(entries[i], skipdirs);
        assert(paths::mentions_any(paths::path_components(p), skipdirs));
    }
}

/// Law: a walked regular file whose extension is that of an image or a
/// video, and none of whose path components is a skipped directory name,
/// is gathered.
pub proof fn law_media_files_gathered(entries: Seq<WalkEntry>, skipdirs: Seq<Seq<char>>, i: int)
    requires
        0 <= i < entries.len(),
        entries[i].is_file,
        file::file_extension(entries[i].path@) is Some,
        ({
            let e = file::file_extension(entries[i].path@)->0;
            e == "jpg"@ || e == "jpeg"@ || e == "png"@ || e == "gif"@ || e == "bmp"@ || e == "mp4"@
                || e == "avi"@ || e == "mkv"@ || e == "mov"@ || e == "flv"@
        }),
        forall|c: int, j: int|
            0 <= c < paths::path_components(entries[i].path@).len() && 0 <= j < skipdirs.len()
                ==> paths::path_components(entries[i].path@)[c] != skipdirs[j],
    ensures
        gathered_locs(entries, skipdirs).contains(entries[i].path@),
{
    assert(gathered(entries[i], skipdirs));
}

/// The media files among the entries of a directory walk, leaving out those
/// under a directory named in `skipdirs`; their hashes are not loaded.
pub fn get_files(entries: &Vec<WalkEntry>, skipdirs: &Vec<String>) -> (r: MediaSet)
    ensures
        r@.dom() == gathered_locs(entries@, paths::views(skipdirs@)),
        forall|p: Seq<char>, c: int, j: int|
            0 <= c < paths::path_components(p).len() && 0 <= j < skipdirs@.len() && #[trigger] paths::path_components(p)[c]
                == #[trigger] skipdirs@[j]@ ==> !r@.contains_key(p),
        forall|l: Seq<char>|
            #[trigger] r@.contains_key(l) <==> exists|i: int|
                0 <= i < entries@.len() && entries@[i].path@ == l && gathered(
                    entries@[i],
                    paths::views(skipdirs@),
                ),
        forall|l: Seq<char>| #[trigger] r@.contains_key(l) ==> r@[l] is None,
{
    let ghost sk = paths::views(skipdirs@);
    let mut files = MediaSet::new();
    let mut i: usize = 0;
    while i < entries.len()
        invariant
            i <= entries.len(),
            sk == paths::views(skipdirs@),
            forall|l: Seq<char>|
                #[trigger] files@.contains_key(l) <==> exists|j: int|
                    0 <= j < i && entries@[j].path@ == l && gathered(entries@[j], sk),
            forall|l: Seq<char>| #[trigger] files@.contains_key(l) ==> files@[l] is None,
        decreases entries.len() - i,
    {
        let e = &entries[i];
        if !path_contains_any_skip(e.path.as_str(), skipdirs) {
            match MediaFile::new(e.path.as_str(), e.is_file) {
                Ok(mf) => {
                    files.insert(mf);
                },
                Err(_) => {},
            }
        }
        proof {
            assert forall|l: Seq<char>| #[trigger]
                files@.contains_key(l) <==> exists|j: int|
                    0 <= j < i + 1 && entries@[j].path@ == l && gathered(entries@[j], sk) by {
                if exists|j: int| 0 <= j < i + 1 && entries@[j].path@ == l && gathered(entries@[j], sk) {
                    let j: int = choose|j: int| 0 <= j < i + 1 && entries@[j].path@ == l && gathered(entries@[j], sk);
                    if j < i {
                        assert(exists|j: int| 0 <= j < i && entries@[j].path@ == l && gathered(entries@[j], sk));
                    }
                }
            }
        }
        i = i + 1;
    }
    assert(files@.dom() =~= gathered_locs(entries@, sk));
    proof {
        assert forall|p: Seq<char>, c: int, j: int|
            0 <= c < paths::path_components(p).len() && 0 <= j < skipdirs@.len() && #[trigger] paths::path_components(p)[c]
                == #[trigger] skipdirs@[j]@ implies !files@.contains_key(p) by {
            assert(sk[j] == skipdirs@[j]@);
            law_skipped_dirs_never_gathered(entries@, sk, p, c, j);
        }
    }
    files
}

/// Whether a file of a set is hashed: it is an image or a video, and the
/// set `ignore` holds no file at its location.
pub open spec fn to_hash(l: Seq<char>, ignore: Map<Seq<char>, Option<u64>>) -> bool {
    file::is_media_loc(l) && !ignore.contains_key(l)
}

/// The files of `files` whose hashes are loaded: the images and videos at
/// locations that `ignore` does not hold.
pub fn files_to_hash(files: &MediaSet, ignore: &MediaSet) -> (r: Vec<MediaFile>)
    ensures
        distinct_locs(r@),
        loc_map(r@) == files@.restrict(Set::new(|l: Seq<char>| to_hash(l, ignore@))),
        forall|l: Seq<char>|
            #[trigger] loc_map(r@).contains_key(l) <==> {
                &&& files@.contains_key(l)
                &&& !ignore@.contains_key(l)
                &&& file::file_extension(l) is Some
                &&& {
                    let e = file::file_extension(l)->0;
                    e == "jpg"@ || e == "jpeg"@ || e == "png"@ || e == "gif"@ || e == "bmp"@ || e
                        == "mp4"@ || e == "avi"@ || e == "mkv"@ || e == "mov"@ || e == "flv"@
                }
            },
{
    let fv = files.files();
    let ghost keep = Set::new(|l: Seq<char>| to_hash(l, ignore@));
    let mut r: Vec<MediaFile> = Vec::new();
    let mut i: usize = 0;
    assert(loc_map(r@) =~= loc_map(fv@.take(0)).restrict(keep));
    while i < fv.len()
        invariant
            i <= fv.len(),
            distinct_locs(fv@),
            loc_map(fv@) == files@,
            keep == Set::new(|l: Seq<char>| to_hash(l, ignore@)),
            distinct_locs(r@),
            loc_map(r@) == loc_map(fv@.take(i as int)).restrict(keep),
        decreases fv.len() - i,
    {
        let f = &fv[i];
        proof {
            lemma_keep_step(fv@, r@, i as int, keep);
        }
        if f.is_media_file() && !ignore.contains(f) {
            r.push(f.clone());
        }
        i = i + 1;
    }
    assert(fv@.take(fv@.len() as int) =~= fv@);
    proof {
        assert forall|l: Seq<char>| #[trigger] loc_map(r@).contains_key(l) <==> {
            &&& files@.contains_key(l)
            &&& !ignore@.contains_key(l)
            &&& file::file_extension(l) is Some
            &&& {
                let e = file::file_extension(l)->0;
                e == "jpg"@ || e == "jpeg"@ || e == "png"@ || e == "gif"@ || e == "bmp"@ || e
                    == "mp4"@ || e == "avi"@ || e == "mkv"@ || e == "mov"@ || e == "flv"@
            }
        } by {
            law_media_files_hashed(files@, ignore@, r@, l);
        }
    }
    r
}

/// Law: the files whose hashes are loaded are exactly the images and the
/// videos of the set, by extension, at locations that `ignore` does not
/// hold.
pub proof fn law_media_files_hashed(
    files: Map<Seq<char>, Option<u64>>,
    ignore: Map<Seq<char>, Option<u64>>,
    r: Seq<MediaFile>,
    l: Seq<char>,
)
    requires
        loc_map(r) == files.restrict(Set::new(|x: Seq<char>| to_hash(x, ignore))),
    ensures
        loc_map(r).contains_key(l) <==> {
            &&& files.contains_key(l)
            &&& !ignore.contains_key(l)
            &&& file::file_extension(l) is Some
            &&& {
                let e = file::file_extension(l)->0;
                e == "jpg"@ || e == "jpeg"@ || e == "png"@ || e == "gif"@ || e == "bmp"@ || e
                    == "mp4"@ || e == "avi"@ || e == "mkv"@ || e == "mov"@ || e == "flv"@
            }
        },
        loc_map(r).contains_key(l) ==> loc_map(r)[l] == files[l],
{
}

/// Whether the file of `source` at `l` is new or different: no file of
/// `dest` has its hash (a file without a hash always is).
pub open spec fn new_or_different_at(
    l: Seq<char>,
    source: Map<Seq<char>, Option<u64>>,
    dest: Map<Seq<char>, Option<u64>>,
) -> bool {
    source.contains_key(l) && !(exists|k: Seq<char>|
        #[trigger] dest.contains_key(k) && dest[k] == source[l] && source[l] is Some)
}

/// The hashes that the files of a set have.
pub open spec fn hashes_of(m: Map<Seq<char>, Option<u64>>) -> Set<u64> {
    Set::new(|h: u64| exists|k: Seq<char>| #[trigger] m.contains_key(k) && m[k] == Some(h))
}

/// The hashes of the files of a set.
fn hash_set_of(files: &MediaSet) -> (r: HashSet<u64>)
    ensures
        r@ == hashes_of(files@),
{
    let fv = files.files();
    let mut r: HashSet<u64> = HashSet::new();
    let mut i: usize = 0;
    proof {
        lemma_loc_map(fv@);
    }
    assert(r@ =~= hashes_before(fv@, 0));
    while i < fv.len()
        invariant
            i <= fv.len(),
            distinct_locs(fv@),
            loc_map(fv@) == files@,
            r@ == hashes_before(fv@, i as int),
        decreases fv.len() - i,
    {
        match fv[i].hash {
            Some(h) => {
                r.insert(h);
            },
            None => {},
        }
        assert(r@ =~= hashes_before(fv@, i + 1));
        i = i + 1;
    }
    assert(r@ =~= hashes_of(files@)) by {
        assert forall|h: u64| r@.contains(h) implies hashes_of(files@).contains(h) by {
            let j: int = choose|j: int| 0 <= j < fv@.len() && fv@[j].hash == Some(h);
            assert(files@.contains_key(fv@[j].file_loc@));
        }
        assert forall|h: u64| hashes_of(files@).contains(h) implies r@.contains(h) by {
            let k = choose|k: Seq<char>| #[trigger] files@.contains_key(k) && files@[k] == Some(h);
            let j: int = choose|j: int| 0 <= j < fv@.len() && fv@[j].file_loc@ == k;
            assert(fv@[j].hash == Some(h));
        }
    }
    r
}

/// The files of `source` that are new or different: no file of `dest` has
/// the same hash. Files whose hash is not loaded are all kept.
pub fn new_or_different(source: &MediaSet, dest: &MediaSet) -> (r: Vec<MediaFile>)
    ensures
        distinct_locs(r@),
        loc_map(r@) == source@.restrict(
            Set::new(|l: Seq<char>| new_or_different_at(l, source@, dest@)),
        ),
{
    let dest_hashes = hash_set_of(dest);
    let fv = source.files();
    let ghost keep = Set::new(|l: Seq<char>| new_or_different_at(l, source@, dest@));
    let mut r: Vec<MediaFile> = Vec::new();
    let mut i: usize = 0;
    proof {
        lemma_loc_map(fv@);
    }
    assert(loc_map(r@) =~= loc_map(fv@.take(0)).restrict(keep));
    while i < fv.len()
        invariant
            i <= fv.len(),
            distinct_locs(fv@),
            loc_map(fv@) == source@,
            forall|j: int| 0 <= j < fv@.len() ==> source@[#[trigger] fv@[j].file_loc@] == fv@[j].hash,
            forall|j: int| 0 <= j < fv@.len() ==> source@.contains_key(#[trigger] fv@[j].file_loc@),
            dest_hashes@ == hashes_of(dest@),
            keep == Set::new(|l: Seq<char>| new_or_different_at(l, source@, dest@)),
            distinct_locs(r@),
            loc_map(r@) == loc_map(fv@.take(i as int)).restrict(keep),
        decreases fv.len() - i,
    {
        let f = &fv[i];
        proof {
            lemma_keep_step(fv@, r@, i as int, keep);
        }
        let fresh = match f.hash {
            Some(h) => !dest_hashes.contains(&h),
            None => true,
        };
        assert(fresh == keep.contains(fv@[i as int].file_loc@));
        if fresh {
            r.push(f.clone());
        }
        i = i + 1;
    }
    assert(fv@.take(fv@.len() as int) =~= fv@);
    r
}

/// The list of the locations of `s`, one per line.
pub open spec fn listing_text(s: Seq<MediaFile>) -> Seq<char>
    decreases s.len(),
{
    if s.len() == 0 {
        Seq::empty()
    } else {
        listing_text(s.drop_last()) + s.last().file_loc@ + seq!['\n']
    }
}

/// The text written to the output file: the location of each file of the
/// set, one per line, in the order `files` gives them.
pub fn listing(files: &MediaSet) -> (r: String)
    ensures
        r@ == listing_text(files.elements()),
{
    let fv = files.files();
    let mut out = String::new();
    let mut i: usize = 0;
    while i < fv.len()
        invariant
            i <= fv.len(),
            out@ == listing_text(fv@.take(i as int)),
        decreases fv.len() - i,
    {
        out.append(fv[i].file_loc.as_str());
        proof {
            reveal_strlit("\n");
        }
        out.append("\n");
        assert(fv@.take(i + 1).drop_last() =~= fv@.take(i as int));
        i = i + 1;
    }
    assert(fv@.take(fv@.len() as int) =~= fv@);
    out
}

// ---------------------------------------------------------------- duplicates

/// Whether the `i`-th file of `s` has a hash that an earlier file has.
pub open spec fn repeats_hash(s: Seq<MediaFile>, i: int) -> bool {
    &&& s[i].hash is Some
    &&& exists|j: int| 0 <= j < i && s[j].hash == s[i].hash
}

/// The files of `s` whose hash an earlier file has, in order: the copies
/// that are deleted.
pub open spec fn repeated(s: Seq<MediaFile>) -> Seq<MediaFile>
    decreases s.len(),
{
    if s.len() == 0 {
        Seq::empty()
    } else if repeats_hash(s, s.len() - 1) {
        repeated(s.drop_last()).push(s.last())
    } else {
        repeated(s.drop_last())
    }
}

/// The set of files of `s` that are kept: taken in order, a file is added
/// unless its hash repeats an earlier one or the set holds its location.
pub open spec fn kept(s: Seq<MediaFile>) -> Map<Seq<char>, Option<u64>>
    decreases s.len(),
{
    if s.len() == 0 {
        Map::empty()
    } else {
        let m = kept(s.drop_last());
        if repeats_hash(s, s.len() - 1) || m.contains_key(s.last().file_loc@) {
            m
        } else {
            m.insert(s.last().file_loc@, s.last().hash)
        }
    }
}

/// Every file of `kept(s)` comes from `s`: a file whose hash repeats no
/// earlier one, with its location and hash.
proof fn lemma_kept_from(s: Seq<MediaFile>)
    ensures
        forall|l: Seq<char>|
            #[trigger] kept(s).contains_key(l) ==> exists|i: int|
                0 <= i < s.len() && s[i].file_loc@ == l && s[i].hash == kept(s)[l]
                    && !repeats_hash(s, i),
    decreases s.len(),
{
    if s.len() > 0 {
        let p = s.drop_last();
        lemma_kept_from(p);
        assert forall|l: Seq<char>| #[trigger] kept(s).contains_key(l) implies exists|i: int|
            0 <= i < s.len() && s[i].file_loc@ == l && s[i].hash == kept(s)[l] && !repeats_hash(
                s,
                i,
            ) by {
            if kept(p).contains_key(l) && kept(s)[l] == kept(p)[l] {
                let i: int = choose|i: int|
                    0 <= i < p.len() && p[i].file_loc@ == l && p[i].hash == kept(p)[l]
                        && !repeats_hash(p, i);
                assert(s[i] == p[i]);
                assert(!repeats_hash(s, i)) by {
                    if repeats_hash(s, i) {
                        let j: int = choose|j: int| 0 <= j < i && s[j].hash == s[i].hash;
                        assert(p[j] == s[j]);
                    }
                }
            } else {
                assert(s[s.len() - 1].file_loc@ == l);
            }
        }
    }
}

/// Law: the files kept after removing copies have pairwise different
/// hashes.
pub proof fn law_kept_hashes_unique(s: Seq<MediaFile>, l1: Seq<char>, l2: Seq<char>)
    requires
        kept(s).contains_key(l1),
        kept(s).contains_key(l2),
        l1 != l2,
        kept(s)[l1] is Some,
    ensures
        kept(s)[l1] != kept(s)[l2],
{
    lemma_kept_from(s);
    let i: int = choose|i: int|
        0 <= i < s.len() && s[i].file_loc@ == l1 && s[i].hash == kept(s)[l1] && !repeats_hash(s, i);
    let j: int = choose|j: int|
        0 <= j < s.len() && s[j].file_loc@ == l2 && s[j].hash == kept(s)[l2] && !repeats_hash(s, j);
    if kept(s)[l1] == kept(s)[l2] {
        assert(i != j);
        if i < j {
            assert(repeats_hash(s, j));
        } else {
            assert(repeats_hash(s, i));
        }
    }
}

/// Law: each file is either a copy, deleted, or its location is kept.
pub proof fn law_kept_or_copy(s: Seq<MediaFile>, i: int)
    requires
        0 <= i < s.len(),
    ensures
        repeats_hash(s, i) || kept(s).contains_key(s[i].file_loc@),
    decreases s.len(),
{
    let p = s.drop_last();
    if i < s.len() - 1 {
        assert(p[i] == s[i]);
        if repeats_hash(p, i) {
            let j: int = choose|j: int| 0 <= j < i && p[j].hash == p[i].hash;
            assert(s[j] == p[j]);
        } else {
            law_kept_or_copy(p, i);
        }
    }
}

/// When locations are distinct, a file whose hash repeats no earlier one
/// is kept with its hash.
proof fn lemma_first_of_hash_kept(s: Seq<MediaFile>, i: int)
    requires
        distinct_locs(s),
        0 <= i < s.len(),
        !repeats_hash(s, i),
    ensures
        kept(s).contains_key(s[i].file_loc@),
        kept(s)[s[i].file_loc@] == s[i].hash,
    decreases s.len(),
{
    let p = s.drop_last();
    assert(distinct_locs(p)) by {
        assert forall|a: int, b: int|
            0 <= a < p.len() && 0 <= b < p.len() && a != b implies #[trigger] p[a].file_loc@
            != #[trigger] p[b].file_loc@ by {
            assert(s[a] == p[a] && s[b] == p[b]);
        }
    }
    lemma_kept_from(p);
    if i < s.len() - 1 {
        assert(p[i] == s[i]);
        assert(!repeats_hash(p, i)) by {
            if repeats_hash(p, i) {
                let j: int = choose|j: int| 0 <= j < i && p[j].hash == p[i].hash;
                assert(s[j] == p[j]);
            }
        }
        lemma_first_of_hash_kept(p, i);
        assert(s[i].file_loc@ != s[s.len() - 1].file_loc@);
    } else {
        assert(!kept(p).contains_key(s.last().file_loc@)) by {
            if kept(p).contains_key(s.last().file_loc@) {
                let j: int = choose|j: int|
                    0 <= j < p.len() && p[j].file_loc@ == s.last().file_loc@ && p[j].hash
                        == kept(p)[s.last().file_loc@] && !repeats_hash(p, j);
                assert(s[j] == p[j]);
            }
        }
    }
}

/// Among the files up to the `i`-th one, the first with its hash does not
/// repeat an earlier hash.
proof fn lemma_first_with_hash(s: Seq<MediaFile>, i: int)
    requires
        0 <= i < s.len(),
    ensures
        exists|j: int| 0 <= j <= i && s[j].hash == s[i].hash && !repeats_hash(s, j),
    decreases i,
{
    if repeats_hash(s, i) {
        let k: int = choose|k: int| 0 <= k < i && s[k].hash == s[i].hash;
        lemma_first_with_hash(s, k);
    }
}

/// Law: when the files have distinct locations, as in a set of files, a
/// copy is deleted only when a kept file has the same hash, so no contents
/// are lost.
pub proof fn law_copies_keep_original(s: Seq<MediaFile>, i: int)
    requires
        distinct_locs(s),
        0 <= i < s.len(),
        repeats_hash(s, i),
    ensures
        exists|l: Seq<char>| #[trigger] kept(s).contains_key(l) && kept(s)[l] == s[i].hash,
{
    lemma_first_with_hash(s, i);
    let j: int = choose|j: int| 0 <= j <= i && s[j].hash == s[i].hash && !repeats_hash(s, j);
    lemma_first_of_hash_kept(s, j);
    assert(kept(s).contains_key(s[j].file_loc@));
}

/// Law: every file whose hash an earlier file has is among the copies
/// that are deleted.
pub proof fn law_every_copy_deleted(s: Seq<MediaFile>, i: int)
    requires
        0 <= i < s.len(),
        s[i].hash is Some,
        exists|j: int| 0 <= j < i && s[j].hash == s[i].hash,
    ensures
        repeated(s).contains(s[i]),
    decreases s.len(),
{
    let p = s.drop_last();
    if i == s.len() - 1 {
        assert(repeated(s).last() == s[i]);
    } else {
        assert(p[i] == s[i]);
        let j: int = choose|j: int| 0 <= j < i && s[j].hash == s[i].hash;
        assert(p[j] == s[j]);
        law_every_copy_deleted(p, i);
        let k: int = choose|k: int| 0 <= k < repeated(p).len() && repeated(p)[k] == s[i];
        if repeats_hash(s, s.len() - 1) {
            assert(repeated(s)[k] == repeated(p)[k]);
        }
    }
}

/// Law: only files whose hash an earlier file has are deleted.
pub proof fn law_only_copies_deleted(s: Seq<MediaFile>, f: MediaFile)
    requires
        repeated(s).contains(f),
    ensures
        exists|i: int|
            0 <= i < s.len() && s[i] == f && s[i].hash is Some && exists|j: int|
                0 <= j < i && s[j].hash == s[i].hash,
    decreases s.len(),
{
    let p = s.drop_last();
    if repeats_hash(s, s.len() - 1) && f == s.last() {
        assert(s[s.len() - 1] == f);
    } else {
        let k: int = choose|k: int| 0 <= k < repeated(s).len() && repeated(s)[k] == f;
        if repeats_hash(s, s.len() - 1) {
            assert(repeated(s)[k] == repeated(p)[k]);
        }
        assert(repeated(p).contains(f));
        law_only_copies_deleted(p, f);
        let i: int = choose|i: int|
            0 <= i < p.len() && p[i] == f && p[i].hash is Some && exists|j: int|
                0 <= j < i && p[j].hash == p[i].hash;
        let j: int = choose|j: int| 0 <= j < i && p[j].hash == p[i].hash;
        assert(s[i] == p[i] && s[j] == p[j]);
    }
}

/// The hashes that some file among the first `i` of `s` has.
pub open spec fn hashes_before(s: Seq<MediaFile>, i: int) -> Set<u64> {
    Set::new(|h: u64| exists|j: int| 0 <= j < i && s[j].hash == Some(h))
}

/// Splits files whose hashes are loaded into those kept and the copies to
/// delete: a file whose hash an earlier file has is a copy; the others are
/// kept, each location once.
pub fn get_file_hashes(files_with_hashes: &Vec<MediaFile>) -> (r: (MediaSet, Vec<MediaFile>))
    ensures
        r.0@ == kept(files_with_hashes@),
        r.1@ == repeated(files_with_hashes@),
        (forall|i: int|
            0 <= i < files_with_hashes@.len() ==> (#[trigger] files_with_hashes@[i]).hash is Some)
            ==> forall|l: Seq<char>| #[trigger] r.0@.contains_key(l) ==> r.0@[l] is Some,        forall|i: int|
            0 <= i < files_with_hashes@.len() && (#[trigger] files_with_hashes@[i]).hash is Some
                && (exists|j: int|
                0 <= j < i && files_with_hashes@[j].hash == files_with_hashes@[i].hash)
                ==> r.1@.contains(files_with_hashes@[i]),
{
    let ghost s = files_with_hashes@;
    let mut seen: HashSet<u64> = HashSet::new();
    let mut unique = MediaSet::new();
    let mut duplicates: Vec<MediaFile> = Vec::new();
    let mut i: usize = 0;
    proof {
        assert(s.take(0) =~= Seq::<MediaFile>::empty());
        assert(seen@ =~= hashes_before(s, 0));
    }
    while i < files_with_hashes.len()
        invariant
            s == files_with_hashes@,
            i <= s.len(),
            seen@ == hashes_before(s, i as int),
            unique@ == kept(s.take(i as int)),
            duplicates@ == repeated(s.take(i as int)),
        decreases s.len() - i,
    {
        let mf = files_with_hashes[i].clone();
        let ghost t = s.take(i + 1);
        proof {
            assert(t.drop_last() =~= s.take(i as int));
            assert(t.last() == s[i as int]);
            assert(repeats_hash(t, i as int) == repeats_hash(s, i as int)) by {
                if repeats_hash(s, i as int) {
                    let j: int = choose|j: int| 0 <= j < i && s[j].hash == s[i as int].hash;
                    assert(t[j] == s[j]);
                }
                if repeats_hash(t, i as int) {
                    let j: int = choose|j: int| 0 <= j < i && t[j].hash == t[i as int].hash;
                    assert(t[j] == s[j]);
                }
            }
        }
        let mut copy = false;
        match mf.hash {
            Some(h) => {
                proof {
                    assert(seen@.contains(h) == repeats_hash(s, i as int));
                }
                if !seen.insert(h) {
                    copy = true;
                }
            },
            None => {},
        }
        if copy {
            duplicates.push(mf);
        } else {
            unique.insert(mf);
        }
        proof {
            assert(seen@ =~= hashes_before(s, i + 1));
        }
        i = i + 1;
    }
    proof {
        assert(s.take(s.len() as int) =~= s);
        lemma_kept_from(s);
        assert forall|i: int|
            0 <= i < s.len() && (#[trigger] s[i]).hash is Some && (exists|j: int|
                0 <= j < i && s[j].hash == s[i].hash) implies repeated(s).contains(s[i]) by {
            law_every_copy_deleted(s, i);
        }
    }
    (unique, duplicates)
}

// ---------------------------------------------------------------- moving

/// A decided move: the file at `source` goes to `target`, once the folder
/// `target_folder`, where there is one, exists.
pub struct MovePlan {
    pub source: String,
    pub target: String,
    pub target_folder: Option<String>,
}

/// Why a file is not moved.
#[derive(Debug, PartialEq, Eq)]
pub enum MoveError {
    /// No new path could be made for the file at this location.
    NoNewFilename(String),
    /// A file already exists at the new path; it is not overwritten.
    TargetExists(String),
}

impl MoveError {
    /// The message shown for the error.
    pub fn message(&self) -> (r: String)
        ensures
            r@ == match self {
                MoveError::NoNewFilename(p) => "Failed to gather new filename for "@ + p@,
                MoveError::TargetExists(p) => "Skipped, a file already exists at "@ + p@,
            },
    {
        match self {
            MoveError::NoNewFilename(p) => {
                let mut s = "Failed to gather new filename for ".to_owned();
                s.append(p.as_str());
                s
            },
            MoveError::TargetExists(p) => {
                let mut s = "Skipped, a file already exists at ".to_owned();
                s.append(p.as_str());
                s
            },
        }
    }
}

/// The folder a file moves into: the destination folder, or else the
/// folder the file is in (`.` when its location has no parent).
pub open spec fn move_folder(loc: Seq<char>, destination_folder: Option<Seq<char>>) -> Seq<char> {
    match destination_folder {
        Some(d) => d,
        None => match paths::path_parent(loc) {
            Some(p) => p,
            None => "."@,
        },
    }
}

/// Decides whether and where `file` moves: to its new path in the
/// destination folder (or in its own folder when there is none), as
/// `MediaFile::new_filename` makes it, with the folder to create for it.
/// `target_exists` tells whether a file exists at that path, as
/// `MediaFile::proposed_filename` gives it; an existing file is never
/// overwritten: the move is refused and no name is recorded.
pub fn move_file(
    file: &MediaFile,
    destination_folder: Option<&str>,
    used_filenames: &mut UsedNames,
    rename: bool,
    create_subfolders: bool,
    date_taken: Option<DateTaken>,
    target_exists: bool,
) -> (r: Result<MovePlan, MoveError>)
    requires
        rename && date_taken is Some ==> old(used_filenames)@.len() < u32::MAX,
    ensures
        ({
            let loc = file.file_loc@;
            let fname = paths::path_file_name(loc);
            let ext = file::file_extension(loc);
            let target = file::destination_path(
                move_folder(loc, file::opt_str_view(destination_folder)),
                fname,
                ext,
                rename,
                create_subfolders,
                date_taken,
                old(used_filenames)@,
            );
            match r {
                Ok(p) => {
                    &&& !target_exists
                    &&& target == Some(p.target@)
                    &&& final(used_filenames)@ == file::names_after(
                        fname,
                        ext,
                        rename,
                        date_taken,
                        old(used_filenames)@,
                    )
                    &&& p.source@ == loc
                    &&& paths::opt_view(p.target_folder) == paths::path_parent(p.target@)
                },
                Err(MoveError::NoNewFilename(l)) => {
                    &&& target is None
                    &&& l@ == loc
                    &&& final(used_filenames)@ == old(used_filenames)@
                },
                Err(MoveError::TargetExists(t)) => {
                    &&& target_exists
                    &&& target == Some(t@)
                    &&& final(used_filenames)@ == old(used_filenames)@
                },
            }
        }),
{
    let dest = match destination_folder {
        Some(d) => d.to_owned(),
        None => file.parent(),
    };
    if target_exists {
        return match file.proposed_filename(
            dest.as_str(),
            used_filenames,
            rename,
            create_subfolders,
            date_taken,
        ) {
            Some(t) => Err(MoveError::TargetExists(t)),
            None => Err(MoveError::NoNewFilename(file.file_loc.clone())),
        };
    }
    match file.new_filename(dest.as_str(), used_filenames, rename, create_subfolders, date_taken) {
        Some(target) => {
            let target_folder = parent_of(target.as_str());
            Ok(MovePlan { source: file.file_loc.clone(), target, target_folder })
        },
        None => Err(MoveError::NoNewFilename(file.file_loc.clone())),
    }
}

} // verus!
