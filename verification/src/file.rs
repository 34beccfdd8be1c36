//! A media file: its location, its kind, its content hash, and the name and
//! place it gets when the library is sorted.
use vstd::prelude::*;
use vstd::string::*;
use vstd::hash_set::StringHashSet;
use vstd::set_lib::*;
use crate::text;
use crate::text::{push_decimal, push_signed_decimal, push_path, push_ascii_lowercase, lines_of, trim_of};
use crate::paths;
use crate::paths::{file_name_of, extension_of_path, parent_of};
use crate::date;
use crate::date::{DateTaken, date_candidate, parse_exif_line};

verus! {

broadcast use vstd::hash_set::group_hash_set_axioms;

// ---------------------------------------------------------------- hashing

#[verifier::external_type_specification]
#[verifier::external_body]
pub struct ExXxh3(xxhash_rust::xxh3::Xxh3);

/// The bytes fed so far to an XXH3 streaming hasher.
pub uninterp spec fn xxh3_input(state: xxhash_rust::xxh3::Xxh3) -> Seq<u8>;

/// The 64-bit XXH3 hash, with the default seed and secret, of `data`.
pub uninterp spec fn xxh3_64_of(data: Seq<u8>) -> u64;

/// Calls `Xxh3::new`; the contract states that the new hasher has been fed
/// nothing.
#[verifier::external_body]
fn xxh3_new() -> (r: xxhash_rust::xxh3::Xxh3)
    ensures
        xxh3_input(r) == Seq::<u8>::empty(),
{
    xxhash_rust::xxh3::Xxh3::new()
}

/// Calls `Xxh3::update`; the contract states that the hasher has then been
/// fed `input` after what it had been fed before.
#[verifier::external_body]
fn xxh3_update(state: &mut xxhash_rust::xxh3::Xxh3, input: &[u8])
    ensures
        xxh3_input(*final(state)) == xxh3_input(*old(state)) + input@,
{
    state.update(input)
}

/// Calls `Xxh3::digest`; the contract states that the result is the XXH3
/// hash of all that the hasher has been fed.
#[verifier::external_body]
fn xxh3_digest(state: &xxhash_rust::xxh3::Xxh3) -> (r: u64)
    ensures
        r == xxh3_64_of(xxh3_input(*state)),
{
    state.digest()
}

/// Hashes the contents of a file, fed to it chunk by chunk.
pub struct ContentHasher {
    state: xxhash_rust::xxh3::Xxh3,
}

impl View for ContentHasher {
    type V = Seq<u8>;

    /// The bytes fed so far.
    closed spec fn view(&self) -> Seq<u8> {
        xxh3_input(self.state)
    }
}

impl ContentHasher {
    /// A hasher that has been fed nothing.
    pub fn new() -> (r: ContentHasher)
        ensures
            r@ == Seq::<u8>::empty(),
    {
        ContentHasher { state: xxh3_new() }
    }

    /// Feeds the next chunk of the contents.
    pub fn update(&mut self, chunk: &[u8])
        ensures
            final(self)@ == old(self)@ + chunk@,
    {
        xxh3_update(&mut self.state, chunk);
    }

    /// The XXH3 hash of all the chunks fed so far.
    pub fn digest(&self) -> (r: u64)
        ensures
            r == xxh3_64_of(self@),
    {
        xxh3_digest(&self.state)
    }
}

// ---------------------------------------------------------------- kinds

/// The extensions of image files.
pub open spec fn is_image_extension(e: Seq<char>) -> bool {
    e == "jpg"@ || e == "jpeg"@ || e == "png"@ || e == "gif"@ || e == "bmp"@
}

/// The extensions of video files.
pub open spec fn is_video_extension(e: Seq<char>) -> bool {
    e == "mp4"@ || e == "avi"@ || e == "mkv"@ || e == "mov"@ || e == "flv"@
}

/// Whether an optional extension is that of an image.
pub open spec fn is_image_ext(e: Option<Seq<char>>) -> bool {
    e is Some && is_image_extension(e->0)
}

/// Whether an optional extension is that of a video.
pub open spec fn is_video_ext(e: Option<Seq<char>>) -> bool {
    e is Some && is_video_extension(e->0)
}

/// The extension of the file at `loc`.
pub open spec fn file_extension(loc: Seq<char>) -> Option<Seq<char>> {
    paths::extension_of(paths::path_file_name(loc))
}

/// Whether `ext` is one of the image extensions (compared exactly, so in
/// lower case).
pub fn image_extension(ext: &str) -> (r: bool)
    ensures
        r == is_image_extension(ext@),
{
    let e = ext.to_owned();
    e == "jpg".to_owned() || e == "jpeg".to_owned() || e == "png".to_owned() || e
        == "gif".to_owned() || e == "bmp".to_owned()
}

/// Whether `ext` is one of the video extensions (compared exactly, so in
/// lower case).
pub fn video_extension(ext: &str) -> (r: bool)
    ensures
        r == is_video_extension(ext@),
{
    let e = ext.to_owned();
    e == "mp4".to_owned() || e == "avi".to_owned() || e == "mkv".to_owned() || e
        == "mov".to_owned() || e == "flv".to_owned()
}

/// The text of an optional string slice.
pub open spec fn opt_str_view(o: Option<&str>) -> Option<Seq<char>> {
    match o {
        Some(s) => Some(s@),
        None => None,
    }
}

// ---------------------------------------------------------------- names

/// `IMG` or `VID`, by the kind of the extension.
pub open spec fn kind_prefix(ext: Seq<char>) -> Seq<char> {
    if is_video_extension(ext) {
        seq!['V', 'I', 'D']
    } else {
        seq!['I', 'M', 'G']
    }
}

/// `n` in decimal with at least two digits.
pub open spec fn two_digits(n: u32) -> Seq<char> {
    text::zero_pad(text::decimal(n as nat), 2)
}

/// The name of a file taken at `d`, before its extension:
/// `IMG_YYYYMMDD_HHMMSS` or `VID_YYYYMMDD_HHMMSS`.
pub open spec fn name_stem(d: DateTaken, ext: Seq<char>) -> Seq<char> {
    kind_prefix(ext) + seq!['_'] + text::signed_decimal(d.year as int) + two_digits(d.month)
        + two_digits(d.day) + seq!['_'] + two_digits(d.hour) + two_digits(d.minute)
        + two_digits(d.second)
}

/// The `k`-th name tried for a file: `stem.ext` first, then
/// `stem_0001.ext`, `stem_0002.ext`, and so on.
pub open spec fn candidate_name(stem: Seq<char>, ext: Seq<char>, k: nat) -> Seq<char> {
    if k == 0 {
        stem + seq!['.'] + ext
    } else {
        stem + seq!['_'] + text::zero_pad(text::decimal(k), 4) + seq!['.'] + ext
    }
}

/// `k` is the first index whose name is not taken in `used`.
pub open spec fn first_free(stem: Seq<char>, ext: Seq<char>, used: Set<Seq<char>>, k: nat) -> bool {
    &&& !used.contains(candidate_name(stem, ext, k))
    &&& forall|j: nat| j < k ==> used.contains(#[trigger] candidate_name(stem, ext, j))
}

/// The first index whose name is not taken in `used`.
pub open spec fn free_index(stem: Seq<char>, ext: Seq<char>, used: Set<Seq<char>>) -> nat {
    choose|k: nat| first_free(stem, ext, used, k)
}

/// There is only one first free index.
pub proof fn lemma_first_free_unique(
    stem: Seq<char>,
    ext: Seq<char>,
    used: Set<Seq<char>>,
    a: nat,
    b: nat,
)
    requires
        first_free(stem, ext, used, a),
        first_free(stem, ext, used, b),
    ensures
        a == b,
{
    if a < b {
        assert(used.contains(candidate_name(stem, ext, a)));
    } else if b < a {
        assert(used.contains(candidate_name(stem, ext, b)));
    }
}

/// An index that is the first free one is the one `free_index` picks.
pub proof fn lemma_free_index(stem: Seq<char>, ext: Seq<char>, used: Set<Seq<char>>, k: nat)
    requires
        first_free(stem, ext, used, k),
    ensures
        free_index(stem, ext, used) == k,
        first_free(stem, ext, used, free_index(stem, ext, used)),
{
    lemma_first_free_unique(stem, ext, used, free_index(stem, ext, used), k);
}

/// The folder a dated file goes to: the destination, or its subfolder for
/// the year.
pub open spec fn dated_folder(dest: Seq<char>, d: DateTaken, create_subfolders: bool) -> Seq<char> {
    if create_subfolders {
        text::path_push(dest, text::signed_decimal(d.year as int))
    } else {
        dest
    }
}

/// The name a file taken at `d` with extension `ext` is renamed to, given
/// the names `used` so far: the first free candidate for the stem of the
/// date, with the extension in lower case.
pub open spec fn renamed_name(d: DateTaken, ext: Seq<char>, used: Set<Seq<char>>) -> Seq<char> {
    let stem = name_stem(d, ext);
    let lower = text::ascii_lowercase(ext);
    candidate_name(stem, lower, free_index(stem, lower, used))
}

/// The new name that a file with final component `file_name` and extension
/// `ext` takes, if it is renamed: only a dated file with a name and an
/// extension is, when renaming.
pub open spec fn taken_name(
    file_name: Option<Seq<char>>,
    ext: Option<Seq<char>>,
    rename: bool,
    date_taken: Option<DateTaken>,
    used: Set<Seq<char>>,
) -> Option<Seq<char>> {
    if rename && file_name is Some && date_taken is Some && ext is Some {
        Some(renamed_name(date_taken->0, ext->0, used))
    } else {
        None
    }
}

/// The new path, in `dest`, of a file with final component `file_name` and
/// extension `ext`, taken at `date_taken`, given the names `used` so far:
/// none without a file name, or when a renamed file has no extension; the
/// name stays when there is no date or no renaming, and a dated file goes
/// into the folder for its year when `create_subfolders`.
pub open spec fn destination_path(
    dest: Seq<char>,
    file_name: Option<Seq<char>>,
    ext: Option<Seq<char>>,
    rename: bool,
    create_subfolders: bool,
    date_taken: Option<DateTaken>,
    used: Set<Seq<char>>,
) -> Option<Seq<char>> {
    match file_name {
        None => None,
        Some(n) => match date_taken {
            None => Some(text::path_push(dest, n)),
            Some(d) => {
                let folder = dated_folder(dest, d, create_subfolders);
                if !rename {
                    Some(text::path_push(folder, n))
                } else {
                    match ext {
                        None => None,
                        Some(e) => Some(text::path_push(folder, renamed_name(d, e, used))),
                    }
                }
            },
        },
    }
}

/// The names used after a file has been given its new path.
pub open spec fn names_after(
    file_name: Option<Seq<char>>,
    ext: Option<Seq<char>>,
    rename: bool,
    date_taken: Option<DateTaken>,
    used: Set<Seq<char>>,
) -> Set<Seq<char>> {
    match taken_name(file_name, ext, rename, date_taken, used) {
        Some(n) => used.insert(n),
        None => used,
    }
}

/// The candidate names are all different.
pub proof fn lemma_candidate_injective(stem: Seq<char>, ext: Seq<char>, a: nat, b: nat)
    requires
        candidate_name(stem, ext, a) == candidate_name(stem, ext, b),
    ensures
        a == b,
{
    let ca = candidate_name(stem, ext, a);
    let cb = candidate_name(stem, ext, b);
    if a != 0 && b != 0 {
        let pa = text::zero_pad(text::decimal(a), 4);
        let pb = text::zero_pad(text::decimal(b), 4);
        assert(ca.len() == stem.len() + 2 + pa.len() + ext.len());
        assert(pa.len() == pb.len());
        assert(ca.subrange(stem.len() + 1 as int, stem.len() + 1 + pa.len() as int) =~= pa);
        assert(cb.subrange(stem.len() + 1 as int, stem.len() + 1 + pb.len() as int) =~= pb);
        text::lemma_zero_pad_injective(a, b, 4);
    } else if a != 0 || b != 0 {
        assert(ca.len() != cb.len());
    }
}

/// When the first `m` candidate names are all taken in the finite set
/// `used`, there are at least `m` names in it.
pub proof fn lemma_taken_bound(stem: Seq<char>, ext: Seq<char>, used: Set<Seq<char>>, m: nat)
    requires
        used.finite(),
        forall|j: nat| j < m ==> used.contains(#[trigger] candidate_name(stem, ext, j)),
    ensures
        m <= used.len(),
{
    let f = |j: int| candidate_name(stem, ext, j as nat);
    let range = set_int_range(0, m as int);
    lemma_int_range(0, m as int);
    let taken = range.map(f);
    assert forall|x: int, y: int| range.contains(x) && range.contains(y) && f(x) == f(y) implies x
        == y by {
        lemma_candidate_injective(stem, ext, x as nat, y as nat);
    }
    lemma_map_size(range, taken, f);
    assert forall|s: Seq<char>| taken.contains(s) implies used.contains(s) by {
        let x: int = choose|x: int| range.contains(x) && f(x) == s;
        assert(used.contains(candidate_name(stem, ext, x as nat)));
    }
    lemma_len_subset(taken, used);
}

/// When no candidate is the first free one, the first `m` are all taken.
proof fn lemma_all_taken(stem: Seq<char>, ext: Seq<char>, used: Set<Seq<char>>, m: nat)
    requires
        !(exists|k: nat| first_free(stem, ext, used, k)),
    ensures
        forall|j: nat| j < m ==> used.contains(#[trigger] candidate_name(stem, ext, j)),
    decreases m,
{
    if m > 0 {
        lemma_all_taken(stem, ext, used, (m - 1) as nat);
        assert(!first_free(stem, ext, used, (m - 1) as nat));
    }
}

/// In a finite set of used names some candidate is free, so `free_index`
/// picks the first free one.
pub proof fn lemma_first_free_exists(stem: Seq<char>, ext: Seq<char>, used: Set<Seq<char>>)
    requires
        used.finite(),
    ensures
        first_free(stem, ext, used, free_index(stem, ext, used)),
{
    if !(exists|k: nat| first_free(stem, ext, used, k)) {
        lemma_all_taken(stem, ext, used, used.len() + 1);
        lemma_taken_bound(stem, ext, used, used.len() + 1);
    }
}

/// The names used after renaming, in turn, files taken at the dates and
/// with the extensions of `run`.
pub open spec fn used_after_run(used: Set<Seq<char>>, run: Seq<(DateTaken, Seq<char>)>) -> Set<
    Seq<char>,
>
    decreases run.len(),
{
    if run.len() == 0 {
        used
    } else {
        let before = used_after_run(used, run.drop_last());
        before.insert(renamed_name(run.last().0, run.last().1, before))
    }
}

/// The name the `i`-th file of `run` is renamed to.
pub open spec fn run_name(used: Set<Seq<char>>, run: Seq<(DateTaken, Seq<char>)>, i: int) -> Seq<
    char,
> {
    renamed_name(run[i].0, run[i].1, used_after_run(used, run.take(i)))
}

proof fn lemma_run_finite(used: Set<Seq<char>>, run: Seq<(DateTaken, Seq<char>)>)
    requires
        used.finite(),
    ensures
        used_after_run(used, run).finite(),
    decreases run.len(),
{
    if run.len() > 0 {
        lemma_run_finite(used, run.drop_last());
    }
}

proof fn lemma_run_grows(used: Set<Seq<char>>, run: Seq<(DateTaken, Seq<char>)>, a: int, b: int)
    requires
        0 <= a <= b <= run.len(),
    ensures
        used_after_run(used, run.take(a)).subset_of(used_after_run(used, run.take(b))),
    decreases b - a,
{
    if a < b {
        lemma_run_grows(used, run, a, b - 1);
        assert(run.take(b).drop_last() =~= run.take(b - 1));
    }
}

/// Law: over a run of any length, the files renamed in turn get names that
/// are pairwise different, were not used before the run, and are all used
/// after it; no name used before is forgotten.
pub proof fn law_run_names_distinct(used: Set<Seq<char>>, run: Seq<(DateTaken, Seq<char>)>)
    requires
        used.finite(),
    ensures
        used.subset_of(used_after_run(used, run)),
        forall|i: int|
            0 <= i < run.len() ==> !used.contains(#[trigger] run_name(used, run, i))
                && used_after_run(used, run).contains(run_name(used, run, i)),
        forall|i: int, j: int|
            0 <= i < run.len() && 0 <= j < run.len() && i != j ==> #[trigger] run_name(used, run, i)
                != #[trigger] run_name(used, run, j),
{
    assert(run.take(0) =~= Seq::<(DateTaken, Seq<char>)>::empty());
    assert(run.take(run.len() as int) =~= run);
    lemma_run_grows(used, run, 0, run.len() as int);
    assert forall|i: int| 0 <= i < run.len() implies {
        &&& !used_after_run(used, run.take(i)).contains(#[trigger] run_name(used, run, i))
        &&& used_after_run(used, run.take(i + 1)).contains(run_name(used, run, i))
    } by {
        lemma_run_finite(used, run.take(i));
        let lower = text::ascii_lowercase(run[i].1);
        lemma_first_free_exists(name_stem(run[i].0, run[i].1), lower, used_after_run(used, run.take(i)));
        assert(run.take(i + 1).drop_last() =~= run.take(i));
        assert(run.take(i + 1).last() == run[i]);
    }
    assert forall|i: int| 0 <= i < run.len() implies !used.contains(#[trigger] run_name(used, run, i))
        && used_after_run(used, run).contains(run_name(used, run, i)) by {
        lemma_run_grows(used, run, 0, i);
        lemma_run_grows(used, run, i + 1, run.len() as int);
    }
    assert forall|i: int, j: int|
        0 <= i < run.len() && 0 <= j < run.len() && i != j implies #[trigger] run_name(used, run, i)
        != #[trigger] run_name(used, run, j) by {
        if i < j {
            lemma_run_grows(used, run, i + 1, j);
        } else {
            lemma_run_grows(used, run, j + 1, i);
        }
    }
}

/// The decimal digits of a number start with a digit.
proof fn lemma_decimal_first(n: nat)
    ensures
        text::decimal(n).len() > 0,
        text::decimal(n)[0] != '/',
    decreases n,
{
    if n >= 10 {
        lemma_decimal_first(n / 10);
    }
}

/// A path extended by a component that does not start with `/` begins with
/// the path.
proof fn lemma_push_keeps_prefix(base: Seq<char>, component: Seq<char>)
    requires
        component.len() > 0,
        component[0] != '/',
    ensures
        base.is_prefix_of(text::path_push(base, component)),
{
    assert(text::path_push(base, component).subrange(0, base.len() as int) =~= base);
}

/// Law: a renamed file stays inside the destination folder: its new path
/// begins with the destination folder, with or without the folder for its
/// year.
pub proof fn law_renamed_stays_in_destination(
    dest: Seq<char>,
    d: DateTaken,
    ext: Seq<char>,
    k: nat,
    create_subfolders: bool,
)
    ensures
        dest.is_prefix_of(
            text::path_push(
                dated_folder(dest, d, create_subfolders),
                candidate_name(name_stem(d, ext), text::ascii_lowercase(ext), k),
            ),
        ),
{
    let folder = dated_folder(dest, d, create_subfolders);
    let name = candidate_name(name_stem(d, ext), text::ascii_lowercase(ext), k);
    assert(name[0] == kind_prefix(ext)[0]);
    lemma_push_keeps_prefix(folder, name);
    if create_subfolders {
        let year = text::signed_decimal(d.year as int);
        if d.year < 0 {
            assert(year[0] == '-');
        } else {
            lemma_decimal_first(d.year as nat);
        }
        lemma_push_keeps_prefix(dest, year);
        assert(dest.is_prefix_of(text::path_push(folder, name))) by {
            assert(folder.subrange(0, dest.len() as int) =~= dest);
            assert(text::path_push(folder, name).subrange(0, folder.len() as int) =~= folder);
            assert(text::path_push(folder, name).subrange(0, dest.len() as int) =~= folder.subrange(0, dest.len() as int));
        }
    }
}

/// Law: no extension is both that of an image and that of a video, so a
/// media file is of exactly one kind.
pub proof fn law_image_video_disjoint(e: Seq<char>)
    ensures
        !(is_image_extension(e) && is_video_extension(e)),
{
    reveal_strlit("jpg");
    reveal_strlit("jpeg");
    reveal_strlit("png");
    reveal_strlit("gif");
    reveal_strlit("bmp");
    reveal_strlit("mp4");
    reveal_strlit("avi");
    reveal_strlit("mkv");
    reveal_strlit("mov");
    reveal_strlit("flv");
    if is_image_extension(e) && is_video_extension(e) {
        assert(e[0] == 'j' || e[0] == 'p' || e[0] == 'g' || e[0] == 'b');
        assert(e[0] == 'm' || e[0] == 'a' || e[0] == 'f');
    }
}

/// Law: a renamed file is named by its kind and keeps its extension in
/// lower case: its new path is its new name in the (dated) folder, the name
/// starts with `VID_` for the extension of a video and with `IMG_` for that
/// of an image, and it ends with `.` and the extension in lower case.
pub proof fn law_renamed_by_kind(
    dest: Seq<char>,
    n: Seq<char>,
    e: Seq<char>,
    d: DateTaken,
    create_subfolders: bool,
    used: Set<Seq<char>>,
)
    ensures
        ({
            let x = renamed_name(d, e, used);
            &&& destination_path(dest, Some(n), Some(e), true, create_subfolders, Some(d), used)
                == Some(text::path_push(dated_folder(dest, d, create_subfolders), x))
            &&& (e == "mp4"@ || e == "avi"@ || e == "mkv"@ || e == "mov"@ || e == "flv"@) ==> x.take(4)
                == seq!['V', 'I', 'D', '_']
            &&& (e == "jpg"@ || e == "jpeg"@ || e == "png"@ || e == "gif"@ || e == "bmp"@) ==> x.take(4)
                == seq!['I', 'M', 'G', '_']
            &&& x.len() > e.len() && x.skip(x.len() - e.len() - 1) == seq!['.'] + text::ascii_lowercase(e)
        }),
{
    let stem = name_stem(d, e);
    let lower = text::ascii_lowercase(e);
    let k = free_index(stem, lower, used);
    let x = candidate_name(stem, lower, k);
    assert(stem.take(4) =~= kind_prefix(e) + seq!['_']);
    assert(x.take(4) =~= stem.take(4));
    law_image_video_disjoint(e);
    assert(x.skip(x.len() - e.len() - 1) =~= seq!['.'] + lower);
}

// ---------------------------------------------------------------- used names

/// The file names given so far in one run, so that no two files get the
/// same new name.
pub struct UsedNames {
    names: StringHashSet,
}

impl View for UsedNames {
    type V = Set<Seq<char>>;

    closed spec fn view(&self) -> Set<Seq<char>> {
        self.names@
    }
}

impl UsedNames {
    #[verifier::type_invariant]
    spec fn finite_names(self) -> bool {
        self.names@.finite()
    }

    /// No name used yet.
    pub fn new() -> (r: UsedNames)
        ensures
            r@ == Set::<Seq<char>>::empty(),
    {
        UsedNames { names: StringHashSet::new() }
    }

    /// Whether `name` has been used.
    pub fn contains(&self, name: &str) -> (r: bool)
        ensures
            r == self@.contains(name@),
    {
        self.names.contains(name)
    }

    /// Records `name` as used; true when it had not been used before.
    pub fn insert(&mut self, name: String) -> (r: bool)
        ensures
            final(self)@ == old(self)@.insert(name@),
            r == !old(self)@.contains(name@),
    {
        proof {
            use_type_invariant(&*self);
        }
        let mut names = StringHashSet::new();
        std::mem::swap(&mut names, &mut self.names);
        let r = names.insert(name);
        self.names = names;
        r
    }

    /// How many names have been used.
    pub fn len(&self) -> (r: usize)
        ensures
            r == self@.len(),
    {
        self.names.len()
    }

    /// The set of names used is finite.
    pub fn lemma_finite(&self)
        ensures
            self@.finite(),
    {
        proof {
            use_type_invariant(self);
        }
    }
}

fn push_two_digits(out: &mut String, n: u32)
    ensures
        final(out)@ == old(out)@ + two_digits(n),
{
    push_decimal(out, n, 2);
}

/// Builds the name of a file taken at `d` with extension `ext`, before the
/// extension.
fn build_stem(d: DateTaken, ext: &str) -> (r: String)
    ensures
        r@ == name_stem(d, ext@),
{
    let mut s = String::new();
    if video_extension(ext) {
        proof { reveal_strlit("VID"); }
        s.append("VID");
    } else {
        proof { reveal_strlit("IMG"); }
        s.append("IMG");
    }
    proof { reveal_strlit("_"); }
    s.append("_");
    push_signed_decimal(&mut s, d.year);
    push_two_digits(&mut s, d.month);
    push_two_digits(&mut s, d.day);
    s.append("_");
    push_two_digits(&mut s, d.hour);
    push_two_digits(&mut s, d.minute);
    push_two_digits(&mut s, d.second);
    assert(s@ =~= name_stem(d, ext@));
    s
}

/// Builds the `k`-th candidate name.
fn build_candidate(stem: &String, ext: &str, k: u32) -> (r: String)
    ensures
        r@ == candidate_name(stem@, ext@, k as nat),
{
    let mut s = stem.clone();
    proof {
        reveal_strlit("_");
        reveal_strlit(".");
    }
    if k > 0 {
        s.append("_");
        push_decimal(&mut s, k, 4);
    }
    s.append(".");
    s.append(ext);
    assert(s@ =~= candidate_name(stem@, ext@, k as nat));
    s
}

/// The first candidate name that is not used yet.
fn find_free_name(stem: &String, ext: &str, used: &UsedNames) -> (r: String)
    requires
        used@.len() < u32::MAX,
    ensures
        first_free(stem@, ext@, used@, free_index(stem@, ext@, used@)),
        r@ == candidate_name(stem@, ext@, free_index(stem@, ext@, used@)),
{
    used.lemma_finite();
    let mut name = build_candidate(stem, ext, 0);
    let mut counter: u32 = 1;
    while used.contains(name.as_str())
        invariant
            used@.finite(),
            used@.len() < u32::MAX,
            1 <= counter,
            counter <= used@.len() + 1,
            name@ == candidate_name(stem@, ext@, (counter - 1) as nat),
            forall|j: nat| j < counter - 1 ==> used@.contains(#[trigger] candidate_name(stem@, ext@, j)),
        decreases used@.len() + 1 - counter,
    {
        proof {
            lemma_taken_bound(stem@, ext@, used@, counter as nat);
        }
        name = build_candidate(stem, ext, counter);
        counter = counter + 1;
    }
    proof {
        lemma_free_index(stem@, ext@, used@, (counter - 1) as nat);
    }
    name
}

/// The path in `dest_folder` that a file would get, given its final
/// component `file_name`, its extension `extension`, the date it was taken
/// and the names used so far, with the new name it would take; nothing is
/// recorded.
pub fn plan_destination(
    dest_folder: &str,
    file_name: Option<&str>,
    extension: Option<&str>,
    used: &UsedNames,
    rename: bool,
    create_subfolders: bool,
    date_taken: Option<DateTaken>,
) -> (r: (Option<String>, Option<String>))
    requires
        rename && date_taken is Some ==> used@.len() < u32::MAX,
    ensures
        paths::opt_view(r.0) == destination_path(
            dest_folder@,
            opt_str_view(file_name),
            opt_str_view(extension),
            rename,
            create_subfolders,
            date_taken,
            used@,
        ),
        paths::opt_view(r.1) == taken_name(
            opt_str_view(file_name),
            opt_str_view(extension),
            rename,
            date_taken,
            used@,
        ),
{
    let name = match file_name {
        Some(n) => n,
        None => return (None, None),
    };
    let mut dest_path = dest_folder.to_owned();
    match date_taken {
        Some(d) => {
            if create_subfolders {
                let mut year = String::new();
                push_signed_decimal(&mut year, d.year);
                push_path(&mut dest_path, year.as_str());
            }
            if rename {
                let ext = match extension {
                    Some(e) => e,
                    None => return (None, None),
                };
                let stem = build_stem(d, ext);
                let mut lower = String::new();
                push_ascii_lowercase(&mut lower, ext);
                let new_name = find_free_name(&stem, lower.as_str(), used);
                push_path(&mut dest_path, new_name.as_str());
                (Some(dest_path), Some(new_name))
            } else {
                push_path(&mut dest_path, name);
                (Some(dest_path), None)
            }
        },
        None => {
            push_path(&mut dest_path, name);
            (Some(dest_path), None)
        },
    }
}

/// The path in `dest_folder` that a file gets, given its final component
/// `file_name`, its extension `extension` and the date it was taken: the
/// name stays when there is no date or no renaming, and is otherwise
/// `IMG_YYYYMMDD_HHMMSS.ext` (`VID_` for videos, the extension in lower
/// case) with `_0001`, `_0002`, ... before the extension while the name is
/// taken; with `create_subfolders` a dated file goes into the subfolder for
/// its year. A new name is recorded in `used`.
pub fn destination_for(
    dest_folder: &str,
    file_name: Option<&str>,
    extension: Option<&str>,
    used: &mut UsedNames,
    rename: bool,
    create_subfolders: bool,
    date_taken: Option<DateTaken>,
) -> (r: Option<String>)
    requires
        rename && date_taken is Some ==> old(used)@.len() < u32::MAX,
    ensures
        paths::opt_view(r) == destination_path(
            dest_folder@,
            opt_str_view(file_name),
            opt_str_view(extension),
            rename,
            create_subfolders,
            date_taken,
            old(used)@,
        ),
        final(used)@ == names_after(
            opt_str_view(file_name),
            opt_str_view(extension),
            rename,
            date_taken,
            old(used)@,
        ),
{
    let (path, taken) = plan_destination(
        dest_folder,
        file_name,
        extension,
        used,
        rename,
        create_subfolders,
        date_taken,
    );
    match taken {
        Some(n) => {
            used.insert(n);
        },
        None => {},
    }
    path
}

// ---------------------------------------------------------------- files

/// Why a path is not taken as a media file.
#[derive(Debug, PartialEq, Eq)]
pub enum MediaError {
    /// The path is not a regular file.
    NotAFile(String),
    /// The file's extension is not that of an image or a video.
    NotAMediaFile(String),
}

impl MediaError {
    /// The message shown for the error.
    pub fn message(&self) -> (r: String)
        ensures
            r@ == match self {
                MediaError::NotAFile(p) => "not a file: "@ + p@,
                MediaError::NotAMediaFile(p) => "not a media file: "@ + p@,
            },
    {
        match self {
            MediaError::NotAFile(p) => {
                let mut s = "not a file: ".to_owned();
                s.append(p.as_str());
                s
            },
            MediaError::NotAMediaFile(p) => {
                let mut s = "not a media file: ".to_owned();
                s.append(p.as_str());
                s
            },
        }
    }
}

/// An image or video file, by its location, with the hash of its contents
/// once it has been loaded.
pub struct MediaFile {
    pub file_loc: String,
    pub hash: Option<u64>,
}

impl Clone for MediaFile {
    fn clone(&self) -> (r: Self)
        ensures
            r == *self,
    {
        MediaFile { file_loc: self.file_loc.clone(), hash: self.hash }
    }
}

impl PartialEq for MediaFile {
    /// Two media files are the same when they are at the same location.
    fn eq(&self, other: &Self) -> (r: bool) {
        self.file_loc == other.file_loc
    }
}

impl vstd::std_specs::cmp::PartialEqSpecImpl for MediaFile {
    open spec fn obeys_eq_spec() -> bool {
        true
    }

    open spec fn eq_spec(&self, other: &Self) -> bool {
        self.file_loc@ == other.file_loc@
    }
}

impl Eq for MediaFile {}

/// Whether the file at `loc` is an image or a video, by its extension.
pub open spec fn is_media_loc(loc: Seq<char>) -> bool {
    is_image_ext(file_extension(loc)) || is_video_ext(file_extension(loc))
}

impl MediaFile {
    /// The media file at `file_location`, whose hash is not loaded yet;
    /// `is_file` tells whether the location is a regular file. A location
    /// that is not a file, or whose extension is not that of an image or a
    /// video, is refused.
    pub fn new(file_location: &str, is_file: bool) -> (r: Result<MediaFile, MediaError>)
        ensures
            match r {
                Ok(mf) => is_file && is_media_loc(file_location@) && mf.file_loc@
                    == file_location@ && mf.hash is None,
                Err(MediaError::NotAFile(p)) => !is_file && p@ == file_location@,
                Err(MediaError::NotAMediaFile(p)) => is_file && !is_media_loc(file_location@)
                    && p@ == file_location@,
            },
    {
        if !is_file {
            return Err(MediaError::NotAFile(file_location.to_owned()));
        }
        let mf = MediaFile { file_loc: file_location.to_owned(), hash: None };
        if mf.is_media_file() {
            return Ok(mf);
        }
        Err(MediaError::NotAMediaFile(file_location.to_owned()))
    }

    /// Records the hash of the contents fed to `hasher`.
    pub fn load_hash(&mut self, hasher: &ContentHasher)
        ensures
            final(self).file_loc == old(self).file_loc,
            final(self).hash == Some(xxh3_64_of(hasher@)),
    {
        self.hash = Some(hasher.digest());
    }

    /// The extension of the file.
    pub fn extension(&self) -> (r: Option<String>)
        ensures
            paths::opt_view(r) == file_extension(self.file_loc@),
    {
        extension_of_path(self.file_loc.as_str())
    }

    /// Whether the file is an image, by its extension.
    pub fn is_image_file(&self) -> (r: bool)
        ensures
            r == is_image_ext(file_extension(self.file_loc@)),
    {
        match self.extension() {
            Some(e) => image_extension(e.as_str()),
            None => false,
        }
    }

    /// Whether the file is a video, by its extension.
    pub fn is_video_file(&self) -> (r: bool)
        ensures
            r == is_video_ext(file_extension(self.file_loc@)),
    {
        match self.extension() {
            Some(e) => video_extension(e.as_str()),
            None => false,
        }
    }

    /// Whether the file is an image or a video.
    pub fn is_media_file(&self) -> (r: bool)
        ensures
            r == is_media_loc(self.file_loc@),
    {
        self.is_image_file() || self.is_video_file()
    }

    /// The final component of the file's location.
    pub fn file_name(&self) -> (r: Option<String>)
        ensures
            paths::opt_view(r) == paths::path_file_name(self.file_loc@),
    {
        file_name_of(self.file_loc.as_str())
    }

    /// The folder the file is in, or `.` when its location has no parent.
    pub fn parent(&self) -> (r: String)
        ensures
            r@ == match paths::path_parent(self.file_loc@) {
                Some(p) => p,
                None => "."@,
            },
    {
        match parent_of(self.file_loc.as_str()) {
            Some(p) => p,
            None => ".".to_owned(),
        }
    }

    /// The location, as the file is shown to the user.
    pub fn display(&self) -> (r: String)
        ensures
            r@ == self.file_loc@,
    {
        self.file_loc.clone()
    }

    /// The arguments to exiftool that print the dates of the file, most
    /// telling first and the file's modification date last, one per line,
    /// with `-` for a missing tag.
    pub fn exiftool_args(&self) -> (r: Vec<String>)
        ensures
            paths::views(r@) == seq![
                "-DateTimeOriginal"@,
                "-CreateDate"@,
                "-MediaCreateDate"@,
                "-TrackCreateDate"@,
                "-CreationTime"@,
                "-FileModifyDate"@,
                "-s3"@,
                "-f"@,
                self.file_loc@,
            ],
    {
        let mut args: Vec<String> = Vec::new();
        args.push("-DateTimeOriginal".to_owned());
        args.push("-CreateDate".to_owned());
        args.push("-MediaCreateDate".to_owned());
        args.push("-TrackCreateDate".to_owned());
        args.push("-CreationTime".to_owned());
        args.push("-FileModifyDate".to_owned());
        args.push("-s3".to_owned());
        args.push("-f".to_owned());
        args.push(self.file_loc.clone());
        assert(paths::views(args@) =~= seq![
            "-DateTimeOriginal"@,
            "-CreateDate"@,
            "-MediaCreateDate"@,
            "-TrackCreateDate"@,
            "-CreationTime"@,
            "-FileModifyDate"@,
            "-s3"@,
            "-f"@,
            self.file_loc@,
        ]);
        args
    }

    /// The date the file was taken, from what exiftool printed for the
    /// arguments of `exiftool_args`: the date in the first line that, once
    /// trimmed, is neither empty nor `-` and parses.
    pub fn get_date_taken(exif_output: &str) -> (r: Option<DateTaken>)
        ensures
            r == date::first_date(text::text_lines(exif_output@)),
    {
        let lines = lines_of(exif_output);
        let ghost all = lines@.map_values(|l: String| l@);
        let mut i: usize = 0;
        assert(all.skip(0) =~= all);
        while i < lines.len()
            invariant
                i <= lines.len(),
                all == lines@.map_values(|l: String| l@),
                all == text::text_lines(exif_output@),
                date::first_date(all) == date::first_date(all.skip(i as int)),
            decreases lines.len() - i,
        {
            let t = trim_of(lines[i].as_str());
            assert(all.skip(i as int)[0] == lines@[i as int]@);
            assert(all.skip(i as int).drop_first() =~= all.skip(i + 1));
            if date_candidate(t.as_str()) {
                let d = parse_exif_line(t.as_str());
                if d.is_some() {
                    return d;
                }
            }
            i = i + 1;
        }
        assert(all.skip(i as int) =~= Seq::<Seq<char>>::empty());
        None
    }

    /// The new path the file would get in `dest_folder`, given the date it
    /// was taken and the names used so far; nothing is recorded.
    pub fn proposed_filename(
        &self,
        dest_folder: &str,
        used_filenames: &UsedNames,
        rename: bool,
        create_subfolders: bool,
        date_taken: Option<DateTaken>,
    ) -> (r: Option<String>)
        requires
            rename && date_taken is Some ==> used_filenames@.len() < u32::MAX,
        ensures
            paths::opt_view(r) == destination_path(
                dest_folder@,
                paths::path_file_name(self.file_loc@),
                file_extension(self.file_loc@),
                rename,
                create_subfolders,
                date_taken,
                used_filenames@,
            ),
    {
        let name = self.file_name();
        let ext = self.extension();
        let (path, _) = plan_destination(
            dest_folder,
            as_opt_str(&name),
            as_opt_str(&ext),
            used_filenames,
            rename,
            create_subfolders,
            date_taken,
        );
        path
    }

    /// The new path of the file in `dest_folder`, given the date it was
    /// taken; a new name is recorded in `used_filenames`. `None` when the
    /// location has no final component, or when a renamed file has no
    /// extension.
    pub fn new_filename(
        &self,
        dest_folder: &str,
        used_filenames: &mut UsedNames,
        rename: bool,
        create_subfolders: bool,
        date_taken: Option<DateTaken>,
    ) -> (r: Option<String>)
        requires
            rename && date_taken is Some ==> old(used_filenames)@.len() < u32::MAX,
        ensures
            paths::opt_view(r) == destination_path(
                dest_folder@,
                paths::path_file_name(self.file_loc@),
                file_extension(self.file_loc@),
                rename,
                create_subfolders,
                date_taken,
                old(used_filenames)@,
            ),
            final(used_filenames)@ == names_after(
                paths::path_file_name(self.file_loc@),
                file_extension(self.file_loc@),
                rename,
                date_taken,
                old(used_filenames)@,
            ),
    {
        let name = self.file_name();
        let ext = self.extension();
        destination_for(
            dest_folder,
            as_opt_str(&name),
            as_opt_str(&ext),
            used_filenames,
            rename,
            create_subfolders,
            date_taken,
        )
    }
}

/// Borrows the text of an optional string.
fn as_opt_str(o: &Option<String>) -> (r: Option<&str>)
    ensures
        opt_str_view(r) == paths::opt_view(*o),
{
    match o {
        Some(s) => Some(s.as_str()),
        None => None,
    }
}

} // verus!
