//! Installed applications: which folder entries are application bundles, and
//! which file of a bundle is its icon.
use vstd::prelude::*;
use vstd::string::*;

use crate::text::{contains, contains_seq, same_text, utf8_len};

verus! {

/// `i` is the position of the last `.` in `name`.
pub open spec fn is_last_dot(name: Seq<char>, i: int) -> bool {
    &&& 0 <= i < name.len()
    &&& name[i] == '.'
    &&& forall|j: int| i < j < name.len() ==> name[j] != '.'
}

/// The extension of a file name: what follows its last `.`, when that dot is not
/// its first character; file names without such a dot, and `..`, have none.
pub open spec fn extension_of(name: Seq<char>) -> Option<Seq<char>> {
    if name == ".."@ {
        None
    } else if exists|i: int| is_last_dot(name, i) {
        let i = choose|i: int| is_last_dot(name, i);
        if i == 0 {
            None
        } else {
            Some(name.subrange(i + 1, name.len() as int))
        }
    } else {
        None
    }
}

proof fn lemma_last_dot_unique(name: Seq<char>, i: int)
    requires
        is_last_dot(name, i),
    ensures
        (choose|k: int| is_last_dot(name, k)) == i,
{
    let c = choose|k: int| is_last_dot(name, k);
    assert(is_last_dot(name, c));
    if c < i {
        assert(name[i] != '.');
    } else if i < c {
        assert(name[c] != '.');
    }
}

/// A non-empty stem, a dot and a dotless extension make a file name with that
/// extension (the name `..` aside).
pub proof fn lemma_extension_of_dotted(stem: Seq<char>, ext: Seq<char>)
    requires
        stem.len() > 0,
        forall|j: int| 0 <= j < ext.len() ==> ext[j] != '.',
        stem + "."@ + ext != ".."@,
    ensures
        extension_of(stem + "."@ + ext) == Some(ext),
{
    reveal_strlit(".");
    let name = stem + "."@ + ext;
    let i = stem.len() as int;
    assert(name[i] == '.');
    assert forall|j: int| i < j < name.len() implies name[j] != '.' by {
        assert(name[j] == ext[j - i - 1]);
    }
    assert(is_last_dot(name, i));
    lemma_last_dot_unique(name, i);
    assert(name.subrange(i + 1, name.len() as int) =~= ext);
}

/// The extension of the file name `name`, if it has one.
pub fn file_extension(name: &str) -> (r: Option<String>)
    ensures
        match r {
            Some(e) => extension_of(name@) == Some(e@),
            None => extension_of(name@) is None,
        },
{
    proof {
        reveal_strlit("..");
    }
    if same_text(name, "..") {
        return None;
    }
    let n = name.unicode_len();
    let mut i: usize = n;
    while i > 0 && name.get_char(i - 1) != '.'
        invariant
            n == name@.len(),
            i <= n,
            forall|j: int| i <= j < n ==> name@[j] != '.',
        decreases i,
    {
        i = i - 1;
    }
    if i <= 1 {
        proof {
            if i == 1 {
                lemma_last_dot_unique(name@, 0);
            } else {
                assert(!exists|k: int| is_last_dot(name@, k));
            }
        }
        return None;
    }
    let after = name.substring_char(i, n);
    proof {
        assert(is_last_dot(name@, i - 1));
        lemma_last_dot_unique(name@, i - 1);
    }
    Some(after.to_owned())
}

/// Whether the file name `name` has the extension `ext`.
pub fn has_extension(name: &str, ext: &str) -> (b: bool)
    ensures
        b == (extension_of(name@) == Some(ext@)),
{
    match file_extension(name) {
        Some(e) => same_text(e.as_str(), ext),
        None => false,
    }
}

/// Where the path segment that ends at `end` starts: just after the last `/`
/// before `end`, or at the start of the path.
pub open spec fn segment_start(path: Seq<char>, end: int) -> int
    decreases end,
{
    if end <= 0 || path[end - 1] == '/' {
        end
    } else {
        segment_start(path, end - 1)
    }
}

/// A segment starts within the path before its end, and strictly before the end
/// when the character before the end is not a `/`.
pub proof fn lemma_segment_start_bounds(path: Seq<char>, end: int)
    requires
        0 <= end,
    ensures
        0 <= segment_start(path, end) <= end,
        end > 0 && path[end - 1] != '/' ==> segment_start(path, end) < end,
    decreases end,
{
    if end > 0 && path[end - 1] != '/' {
        lemma_segment_start_bounds(path, end - 1);
    }
}

/// The file name of the part of `path` before `end`, as a path's file name is
/// read: its last component, where `/` separates components, empty components
/// and `.` components are left out, and a last component `..` has no file name.
pub open spec fn file_name_before(path: Seq<char>, end: int) -> Option<Seq<char>>
    decreases end,
{
    if end <= 0 {
        None
    } else if path[end - 1] == '/' {
        file_name_before(path, end - 1)
    } else {
        let start = segment_start(path, end);
        proof {
            lemma_segment_start_bounds(path, end);
        }
        let segment = path.subrange(start, end);
        if segment == "."@ {
            file_name_before(path, start)
        } else if segment == ".."@ {
            None
        } else {
            Some(segment)
        }
    }
}

/// The extension of the file a path names: that of its file name, if it has one.
pub open spec fn path_extension_of(path: Seq<char>) -> Option<Seq<char>> {
    match file_name_before(path, path.len() as int) {
        Some(name) => extension_of(name),
        None => None,
    }
}

/// The file name of a path, if it has one.
pub fn path_file_name(path: &str) -> (r: Option<String>)
    ensures
        match r {
            Some(name) => file_name_before(path@, path@.len() as int) == Some(name@),
            None => file_name_before(path@, path@.len() as int) is None,
        },
{
    proof {
        reveal_strlit(".");
        reveal_strlit("..");
    }
    let n = path.unicode_len();
    let mut end: usize = n;
    loop
        invariant
            n == path@.len(),
            end <= n,
            file_name_before(path@, end as int) == file_name_before(path@, n as int),
        decreases end,
    {
        if end == 0 {
            return None;
        }
        if path.get_char(end - 1) == '/' {
            end = end - 1;
        } else {
            let mut start: usize = end;
            while start > 0 && path.get_char(start - 1) != '/'
                invariant
                    n == path@.len(),
                    0 < end <= n,
                    start <= end,
                    path@[end - 1] != '/',
                    segment_start(path@, start as int) == segment_start(path@, end as int),
                decreases start,
            {
                start = start - 1;
            }
            proof {
                lemma_segment_start_bounds(path@, end as int);
                assert(segment_start(path@, start as int) == start);
            }
            let segment = path.substring_char(start, end);
            if same_text(segment, ".") {
                end = start;
            } else if same_text(segment, "..") {
                return None;
            } else {
                return Some(segment.to_owned());
            }
        }
    }
}

/// The extension of the file a path names, if it has one.
pub fn path_extension(path: &str) -> (r: Option<String>)
    ensures
        match r {
            Some(e) => path_extension_of(path@) == Some(e@),
            None => path_extension_of(path@) is None,
        },
{
    match path_file_name(path) {
        Some(name) => file_extension(name.as_str()),
        None => None,
    }
}

/// The lowercase form of a string, as `str::to_lowercase` computes it.
pub uninterp spec fn lowercase(s: Seq<char>) -> Seq<char>;

/// `c`, with an ASCII capital letter turned into its small letter.
pub open spec fn ascii_lower_char(c: char) -> char {
    if 'A' <= c && c <= 'Z' {
        ((c as int) + 32) as char
    } else {
        c
    }
}

/// `w` with every ASCII capital letter turned into its small letter.
pub open spec fn ascii_lowered(w: Seq<char>) -> Seq<char> {
    w.map_values(|c: char| ascii_lower_char(c))
}

/// Every character of `w` is ASCII.
pub open spec fn all_ascii(w: Seq<char>) -> bool {
    forall|i: int| 0 <= i < w.len() ==> (#[trigger] w[i] as int) < 128
}

/// `str::to_lowercase`: its result depends on the string alone; what it is, is
/// named by `lowercase`. `str::to_lowercase` maps each character with
/// `char::to_lowercase` and joins the results in order (only the Greek capital
/// sigma looks at its neighbours), and an ASCII character maps to its ASCII
/// small form; so an ASCII string is lowered letter by letter, and an ASCII
/// piece of any string shows up lowered in the result.
#[verifier::external_body]
fn to_lowercase(s: &str) -> (r: String)
    ensures
        r@ == lowercase(s@),
        all_ascii(s@) ==> r@ == ascii_lowered(s@),
        forall|w: Seq<char>|
            all_ascii(w) && #[trigger] contains_seq(s@, w) ==> contains_seq(r@, ascii_lowered(w)),
{
    s.to_lowercase()
}

/// A file met while walking a directory: its path, and its file name.
#[derive(Debug, Clone, PartialEq, Eq)]
pub struct WalkEntry {
    pub path: String,
    pub file_name: String,
}

/// The entry is a file with extension `ext`.
pub open spec fn is_icon(e: WalkEntry, ext: Seq<char>) -> bool {
    extension_of(e.file_name@) == Some(ext)
}

/// The file name, once lowercased, contains `appicon`.
pub open spec fn names_app_icon(e: WalkEntry) -> bool {
    contains_seq(lowercase(e.file_name@), "appicon"@)
}

/// The file name holds `appicon` in any mix of ASCII capital and small letters.
pub open spec fn names_app_icon_any_case(e: WalkEntry) -> bool {
    exists|w: Seq<char>| #[trigger] contains_seq(e.file_name@, w) && ascii_lowered(w) == "appicon"@
}

/// A piece that lowers to `appicon` is ASCII.
pub proof fn lemma_lowers_to_appicon_is_ascii(w: Seq<char>)
    requires
        ascii_lowered(w) == "appicon"@,
    ensures
        all_ascii(w),
{
    reveal_strlit("appicon");
    let a: Seq<char> = seq!['a', 'p', 'p', 'i', 'c', 'o', 'n'];
    assert("appicon"@ =~= a);
    assert(ascii_lowered(w).len() == w.len());
    assert forall|i: int| 0 <= i < w.len() implies (#[trigger] w[i] as int) < 128 by {
        let c = "appicon"@[i];
        assert(c == 'a' || c == 'p' || c == 'i' || c == 'c' || c == 'o' || c == 'n');
        assert(ascii_lowered(w)[i] == ascii_lower_char(w[i]));
        assert(ascii_lower_char(w[i]) == c);
    }
}

/// The entry may be picked: an icon with extension `ext` and, when `named_only`,
/// one whose name says it is the application's icon.
pub open spec fn eligible(e: WalkEntry, ext: Seq<char>, named_only: bool) -> bool {
    is_icon(e, ext) && (named_only ==> names_app_icon(e))
}

/// Some entry may be picked.
pub open spec fn any_eligible(entries: Seq<WalkEntry>, ext: Seq<char>, named_only: bool) -> bool {
    exists|k: int| 0 <= k < entries.len() && #[trigger] eligible(entries[k], ext, named_only)
}

/// `i` is the pick among the eligible entries: one with the shortest path (in
/// bytes), and the first of those in walking order.
pub open spec fn is_pick(entries: Seq<WalkEntry>, ext: Seq<char>, named_only: bool, i: int) -> bool {
    &&& 0 <= i < entries.len()
    &&& eligible(entries[i], ext, named_only)
    &&& forall|k: int|
        0 <= k < entries.len() && #[trigger] eligible(entries[k], ext, named_only) ==> utf8_len(
            entries[k].path@,
        ) >= utf8_len(entries[i].path@)
    &&& forall|k: int|
        0 <= k < i && #[trigger] eligible(entries[k], ext, named_only) ==> utf8_len(entries[k].path@)
            > utf8_len(entries[i].path@)
}

/// The icon chosen among the walked entries, if any: among the files with
/// extension `ext`, those whose name contains `appicon` (in any case) are
/// preferred; among the preferred ones, or all when none is, the shortest path
/// wins, and the first in walking order among equally short ones.
pub open spec fn is_chosen_icon(entries: Seq<WalkEntry>, ext: Seq<char>, r: Option<Seq<char>>) -> bool {
    match r {
        None => !any_eligible(entries, ext, false),
        Some(p) => exists|i: int|
            #![trigger entries[i]]
            p == entries[i].path@ && if any_eligible(entries, ext, true) {
                is_pick(entries, ext, true, i)
            } else {
                is_pick(entries, ext, false, i)
            },
    }
}

/// The position of the pick among the eligible entries, if any is eligible.
fn pick(entries: &Vec<WalkEntry>, ext: &str, named_only: bool) -> (r: Option<usize>)
    ensures
        match r {
            Some(i) => is_pick(entries@, ext@, named_only, i as int),
            None => !any_eligible(entries@, ext@, named_only),
        },
        named_only ==> forall|m: int|
            0 <= m < entries@.len() && is_icon(entries@[m], ext@) && #[trigger] names_app_icon_any_case(
                entries@[m],
            ) ==> names_app_icon(entries@[m]),
{
    let mut best: Option<usize> = None;
    let mut best_len: usize = 0;
    let mut k: usize = 0;
    while k < entries.len()
        invariant
            k <= entries@.len(),
            match best {
                Some(b) => {
                    &&& b < k
                    &&& best_len == utf8_len(entries@[b as int].path@)
                    &&& eligible(entries@[b as int], ext@, named_only)
                    &&& forall|m: int|
                        0 <= m < k && #[trigger] eligible(entries@[m], ext@, named_only) ==> utf8_len(
                            entries@[m].path@,
                        ) >= best_len
                    &&& forall|m: int|
                        0 <= m < b && #[trigger] eligible(entries@[m], ext@, named_only) ==> utf8_len(
                            entries@[m].path@,
                        ) > best_len
                },
                None => forall|m: int| 0 <= m < k ==> !#[trigger] eligible(entries@[m], ext@, named_only),
            },
            named_only ==> forall|m: int|
                0 <= m < k && is_icon(entries@[m], ext@) && #[trigger] names_app_icon_any_case(entries@[m])
                    ==> names_app_icon(entries@[m]),
        decreases entries@.len() - k,
    {
        let e = &entries[k];
        let mut ok = has_extension(e.file_name.as_str(), ext);
        if ok && named_only {
            let lower = to_lowercase(e.file_name.as_str());
            ok = contains(lower.as_str(), "appicon");
            proof {
                if names_app_icon_any_case(entries@[k as int]) {
                    let w = choose|w: Seq<char>|
                        #[trigger] contains_seq(e.file_name@, w) && ascii_lowered(w) == "appicon"@;
                    lemma_lowers_to_appicon_is_ascii(w);
                    assert(contains_seq(lower@, ascii_lowered(w)));
                }
            }
        }
        proof {
            assert(ok == eligible(entries@[k as int], ext@, named_only));
        }
        if ok {
            let len = e.path.as_str().as_bytes().len();
            match best {
                Some(_) => {
                    if len < best_len {
                        best = Some(k);
                        best_len = len;
                    }
                },
                None => {
                    best = Some(k);
                    best_len = len;
                },
            }
        }
        k = k + 1;
    }
    proof {
        if best is None {
            if any_eligible(entries@, ext@, named_only) {
                let m = choose|m: int| 0 <= m < entries@.len() && #[trigger] eligible(entries@[m], ext@, named_only);
                assert(!eligible(entries@[m], ext@, named_only));
            }
        }
    }
    best
}

/// The icon among the walked entries with extension `ext`, chosen as
/// [`is_chosen_icon`] says.
pub fn select_icon(entries: &Vec<WalkEntry>, ext: &str) -> (r: Option<String>)
    ensures
        is_chosen_icon(entries@, ext@, match r { Some(s) => Some(s@), None => None }),
        forall|m: int|
            0 <= m < entries@.len() && is_icon(entries@[m], ext@) && #[trigger] names_app_icon_any_case(
                entries@[m],
            ) ==> names_app_icon(entries@[m]),
{
    match pick(entries, ext, true) {
        Some(i) => {
            proof {
                assert(any_eligible(entries@, ext@, true)) by {
                    assert(eligible(entries@[i as int], ext@, true));
                }
            }
            Some(entries[i].path.clone())
        },
        None => match pick(entries, ext, false) {
            Some(i) => Some(entries[i].path.clone()),
            None => None,
        },
    }
}

/// An icon whose file name holds `appicon` in any case wins: when such an icon is
/// among the walked files (and the lowercasing finds the name, as `to_lowercase`
/// promises), the chosen icon is one whose name says it is the application's
/// icon, whatever the lengths of the names and paths.
pub proof fn lemma_app_icon_in_any_case_wins(entries: Seq<WalkEntry>, ext: Seq<char>, r: Option<Seq<char>>, k: int)
    requires
        is_chosen_icon(entries, ext, r),
        forall|m: int|
            0 <= m < entries.len() && is_icon(entries[m], ext) && #[trigger] names_app_icon_any_case(entries[m])
                ==> names_app_icon(entries[m]),
        0 <= k < entries.len(),
        is_icon(entries[k], ext),
        names_app_icon_any_case(entries[k]),
    ensures
        r matches Some(p) && exists|i: int|
            0 <= i < entries.len() && p == entries[i].path@ && is_icon(entries[i], ext) && names_app_icon(
                #[trigger] entries[i],
            ),
{
    assert(eligible(entries[k], ext, true));
    assert(any_eligible(entries, ext, true));
    assert(any_eligible(entries, ext, false)) by {
        assert(eligible(entries[k], ext, false));
    }
}

/// `base` joined with the relative path `part`: a `/` goes between them unless
/// `base` is empty or already ends with one.
pub open spec fn join_path(base: Seq<char>, part: Seq<char>) -> Seq<char> {
    if base.len() == 0 || base.last() == '/' {
        base + part
    } else {
        base + "/"@ + part
    }
}

/// Joins the relative path `part` to `base`.
pub fn join(base: &str, part: &str) -> (r: String)
    ensures
        r@ == join_path(base@, part@),
{
    let n = base.unicode_len();
    let mut r = base.to_owned();
    if n > 0 && base.get_char(n - 1) == '/' {
        r.append(part);
    } else if n == 0 {
        r.append(part);
    } else {
        r.append("/");
        r.append(part);
    }
    r
}

/// The `Contents` directory of a bundle.
pub open spec fn contents_path_of(app_path: Seq<char>) -> Seq<char> {
    join_path(app_path, "Contents"@)
}

/// Where a bundle keeps its icon by default: `Contents/Resources/AppIcon.icns`.
pub open spec fn default_icns_path_of(app_path: Seq<char>) -> Seq<char> {
    join_path(join_path(contents_path_of(app_path), "Resources"@), "AppIcon.icns"@)
}

/// The `Contents` directory of the bundle at `app_path`.
pub fn bundle_contents_path(app_path: &str) -> (r: String)
    ensures
        r@ == contents_path_of(app_path@),
{
    join(app_path, "Contents")
}

/// The default icon file of the bundle at `app_path`.
pub fn default_icns_path(app_path: &str) -> (r: String)
    ensures
        r@ == default_icns_path_of(app_path@),
{
    let contents = bundle_contents_path(app_path);
    let resources = join(contents.as_str(), "Resources");
    join(resources.as_str(), "AppIcon.icns")
}

/// How the icon of a bundle is found: it is the default icon file, or it is to be
/// chosen among the files met walking the bundle (a bundle without `Contents`)
/// or walking its `Contents` directory.
#[derive(Debug, Clone, PartialEq, Eq)]
pub enum IconLookup {
    Default(String),
    WalkBundle(String),
    WalkContents(String),
}

/// The first step in finding the icon of the bundle at `app_path`, given whether
/// its `Contents` directory and its default icon file exist: a bundle without
/// `Contents` is walked whole for PNG images; otherwise the default icon is used
/// when it exists, and `Contents` is walked for `.icns` files when it does not.
pub fn find_app_icns(app_path: &str, contents_exists: bool, default_icon_exists: bool) -> (r: IconLookup)
    ensures
        !contents_exists ==> (r matches IconLookup::WalkBundle(p) && p@ == app_path@),
        contents_exists && default_icon_exists ==> (r matches IconLookup::Default(p) && p@
            == default_icns_path_of(app_path@)),
        contents_exists && !default_icon_exists ==> (r matches IconLookup::WalkContents(p) && p@
            == contents_path_of(app_path@)),
{
    if !contents_exists {
        IconLookup::WalkBundle(app_path.to_owned())
    } else if default_icon_exists {
        IconLookup::Default(default_icns_path(app_path))
    } else {
        IconLookup::WalkContents(bundle_contents_path(app_path))
    }
}

/// The icon of a bundle without `Contents`, from the walk of the bundle: none
/// when the walk failed (`None`), otherwise the PNG image chosen as
/// [`is_chosen_icon`] says.
pub fn find_ios_app_icon(walk: Option<Vec<WalkEntry>>) -> (r: Option<String>)
    ensures
        match walk {
            None => r is None,
            Some(entries) => is_chosen_icon(entries@, "png"@, match r { Some(s) => Some(s@), None => None })
                && forall|m: int|
                0 <= m < entries@.len() && is_icon(entries@[m], "png"@) && #[trigger] names_app_icon_any_case(
                    entries@[m],
                ) ==> names_app_icon(entries@[m]),
        },
{
    match walk {
        None => None,
        Some(entries) => select_icon(&entries, "png"),
    }
}

/// The icon of a bundle whose default icon is missing, from the walk of its
/// `Contents` directory (entries that could not be read left out): the `.icns`
/// file chosen as [`is_chosen_icon`] says.
pub fn find_contents_icon(entries: &Vec<WalkEntry>) -> (r: Option<String>)
    ensures
        is_chosen_icon(entries@, "icns"@, match r { Some(s) => Some(s@), None => None }),
        forall|m: int|
            0 <= m < entries@.len() && is_icon(entries@[m], "icns"@) && #[trigger] names_app_icon_any_case(
                entries@[m],
            ) ==> names_app_icon(entries@[m]),
{
    select_icon(entries, "icns")
}

/// An installed application.
#[derive(Debug, Clone, PartialEq, Eq)]
pub struct App {
    pub name: String,
    pub icon_path: Option<String>,
    pub app_path_exe: String,
    pub app_desktop_path: String,
}

/// An entry of an applications folder: its path, its file name, and the icon
/// found for it.
#[derive(Debug, Clone, PartialEq, Eq)]
pub struct FolderEntry {
    pub path: String,
    pub file_name: String,
    pub icon_path: Option<String>,
}

/// The folders searched for applications.
pub fn application_folders() -> (r: Vec<String>)
    ensures
        r@.len() == 2,
        r@[0]@ == "/Applications"@,
        r@[1]@ == "/Users/pplanel/Applications"@,
{
    let mut r = Vec::new();
    r.push("/Applications".to_owned());
    r.push("/Users/pplanel/Applications".to_owned());
    r
}

/// Whether a folder entry with this file name is an application bundle: its
/// extension is `app`.
pub fn is_app_bundle(file_name: &str) -> (b: bool)
    ensures
        b == (extension_of(file_name@) == Some("app"@)),
{
    has_extension(file_name, "app")
}

/// The entries that are application bundles, in order.
pub open spec fn app_bundles(entries: Seq<FolderEntry>) -> Seq<FolderEntry>
    decreases entries.len(),
{
    if entries.len() == 0 {
        seq![]
    } else {
        let r = app_bundles(entries.drop_last());
        if extension_of(entries.last().file_name@) == Some("app"@) {
            r.push(entries.last())
        } else {
            r
        }
    }
}

/// The application an application bundle entry stands for: named by its file
/// name, with its icon, started and shown from its path.
pub open spec fn is_app_of(app: App, entry: FolderEntry) -> bool {
    &&& app.name@ == entry.file_name@
    &&& app.icon_path == entry.icon_path
    &&& app.app_path_exe@ == entry.path@
    &&& app.app_desktop_path@ == entry.path@
}

/// The applications among the entries of the applications folders: one for each
/// application bundle, in order.
pub fn get_apps(entries: Vec<FolderEntry>) -> (apps: Vec<App>)
    ensures
        apps@.len() == app_bundles(entries@).len(),
        forall|i: int| 0 <= i < apps@.len() ==> is_app_of(#[trigger] apps@[i], app_bundles(entries@)[i]),
{
    let mut apps: Vec<App> = Vec::new();
    let mut k: usize = 0;
    while k < entries.len()
        invariant
            k <= entries@.len(),
            apps@.len() == app_bundles(entries@.take(k as int)).len(),
            forall|i: int|
                0 <= i < apps@.len() ==> is_app_of(#[trigger] apps@[i], app_bundles(entries@.take(k as int))[i]),
        decreases entries@.len() - k,
    {
        let e = &entries[k];
        proof {
            assert(entries@.take(k + 1).drop_last() =~= entries@.take(k as int));
            assert(entries@.take(k + 1).last() == entries@[k as int]);
        }
        if is_app_bundle(e.file_name.as_str()) {
            let app = App {
                name: e.file_name.clone(),
                icon_path: e.icon_path.clone(),
                app_path_exe: e.path.clone(),
                app_desktop_path: e.path.clone(),
            };
            let ghost before = apps@;
            apps.push(app);
            proof {
                assert forall|i: int| 0 <= i < apps@.len() implies is_app_of(
                    #[trigger] apps@[i],
                    app_bundles(entries@.take(k + 1))[i],
                ) by {
                    if i < before.len() {
                        assert(apps@[i] == before[i]);
                    }
                }
            }
        }
        k = k + 1;
    }
    proof {
        assert(entries@.take(entries@.len() as int) =~= entries@);
    }
    apps
}

} // verus!
