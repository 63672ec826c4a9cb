//! Where each cleaning category looks for files.
//!
//! A category yields candidate targets, each guarded by paths that must
//! exist for it to be kept. The caller reads the environment into a
//! `PathEnv`, lists the directories `listing_dirs` names, asks the file
//! system which of the paths `probe_paths` names exist, and hands the
//! answers to `paths_for`. Paths are Windows paths.
use vstd::prelude::*;
use crate::drive::{ascii_lower, eq_ignore_ascii_case, same_ignoring_ascii_case};
use crate::models::CleanCategory;
use crate::text::{chars_of, starts_with, starts_with_lit};

verus! {

/// A single cleanable target.
pub enum CleanTarget {
    /// Recursively clear the directory's contents, keeping the directory.
    Dir(String),
    /// Delete the files inside `dir` matching the glob `pattern`.
    Files { dir: String, pattern: String },
    /// Delete a single file.
    File(String),
    /// Empty the recycle bin of the drive holding this directory.
    RecycleBin(String),
}

/// The content of a `CleanTarget`.
pub enum TargetView {
    Dir(Seq<char>),
    Files(Seq<char>, Seq<char>),
    File(Seq<char>),
    RecycleBin(Seq<char>),
}

impl View for CleanTarget {
    type V = TargetView;

    open spec fn view(&self) -> TargetView {
        match self {
            CleanTarget::Dir(p) => TargetView::Dir(p@),
            CleanTarget::Files { dir, pattern } => TargetView::Files(dir@, pattern@),
            CleanTarget::File(p) => TargetView::File(p@),
            CleanTarget::RecycleBin(p) => TargetView::RecycleBin(p@),
        }
    }
}

/// The locations read from the environment: `%TEMP%`, `%TMP%`,
/// `%SystemRoot%`, `%ProgramData%`, the local and roaming application data
/// directories and the home directory, each absent when unknown.
pub struct PathEnv {
    pub temp: Option<String>,
    pub tmp: Option<String>,
    pub system_root: Option<String>,
    pub program_data: Option<String>,
    pub local_data: Option<String>,
    pub roaming_data: Option<String>,
    pub home: Option<String>,
}

/// Calls `dirs::data_local_dir()` and gives the directory as text. Nothing
/// is claimed of it: it is what the system reports for the current user.
#[verifier::external_body]
fn local_data_dir() -> (r: Option<String>) {
    dirs::data_local_dir().map(|p| p.to_string_lossy().into_owned())
}

/// Calls `dirs::data_dir()` and gives the directory as text. Nothing is
/// claimed of it: it is what the system reports for the current user.
#[verifier::external_body]
fn roaming_data_dir() -> (r: Option<String>) {
    dirs::data_dir().map(|p| p.to_string_lossy().into_owned())
}

/// Calls `dirs::home_dir()` and gives the directory as text. Nothing is
/// claimed of it: it is what the system reports for the current user.
#[verifier::external_body]
fn home_dir() -> (r: Option<String>) {
    dirs::home_dir().map(|p| p.to_string_lossy().into_owned())
}

/// The locations of this machine: the environment variables `%TEMP%`,
/// `%TMP%`, `%SystemRoot%` and `%ProgramData%` as the caller read them, and
/// the local and roaming application data and home directories the system
/// reports.
pub fn path_env(
    temp: Option<String>,
    tmp: Option<String>,
    system_root: Option<String>,
    program_data: Option<String>,
) -> (r: PathEnv)
    ensures
        r.temp == temp,
        r.tmp == tmp,
        r.system_root == system_root,
        r.program_data == program_data,
{
    PathEnv {
        temp,
        tmp,
        system_root,
        program_data,
        local_data: local_data_dir(),
        roaming_data: roaming_data_dir(),
        home: home_dir(),
    }
}

/// An entry of a listed directory: its name and whether it is a directory.
pub struct DirItem {
    pub name: String,
    pub is_dir: bool,
}

/// The entries of a directory, in the order the system listed them (none
/// when it could not be listed).
pub struct Listing {
    pub dir: String,
    pub items: Vec<DirItem>,
}

/// A candidate target and the paths that must exist for it to be kept.
pub struct CandView {
    pub target: TargetView,
    pub guards: Seq<Seq<char>>,
}

pub open spec fn strs(s: Seq<String>) -> Seq<Seq<char>> {
    s.map_values(|x: String| x@)
}

pub open spec fn ov(o: Option<String>) -> Option<Seq<char>> {
    match o {
        Some(s) => Some(s@),
        None => None,
    }
}

pub open spec fn items_view(v: Seq<DirItem>) -> Seq<(Seq<char>, bool)> {
    v.map_values(|it: DirItem| (it.name@, it.is_dir))
}

/// The entries listed for `dir`: those of the first listing of it, none
/// when it was not listed.
pub open spec fn items_of(ls: Seq<Listing>, dir: Seq<char>) -> Seq<(Seq<char>, bool)>
    decreases ls.len(),
{
    if ls.len() == 0 {
        Seq::empty()
    } else if ls[0].dir@ == dir {
        items_view(ls[0].items@)
    } else {
        items_of(ls.drop_first(), dir)
    }
}

pub open spec fn is_sep(c: char) -> bool {
    c == '\\' || c == '/'
}

pub open spec fn is_ascii_alpha(c: char) -> bool {
    ('a' <= c && c <= 'z') || ('A' <= c && c <= 'Z')
}

/// A drive prefix alone, such as `C:`.
pub open spec fn is_bare_drive(p: Seq<char>) -> bool {
    p.len() == 2 && p[1] == ':' && is_ascii_alpha(p[0])
}

/// `base` joined with the relative `part` as `Path::join` does on Windows:
/// a `\` goes between them unless `base` is empty, ends with a separator
/// or is a bare drive.
pub open spec fn spec_path_join(base: Seq<char>, part: Seq<char>) -> Seq<char> {
    if base.len() == 0 || is_sep(base.last()) || is_bare_drive(base) {
        base + part
    } else {
        base + seq!['\\'] + part
    }
}

/// `base` joined with the relative `part`.
pub fn path_join(base: &str, part: &str) -> (r: String)
    ensures
        r@ == spec_path_join(base@, part@),
{
    let b = chars_of(base);
    let n = b.len();
    let plain = n == 0 || b[n - 1] == '\\' || b[n - 1] == '/' || (n == 2 && b[1] == ':' && (('a'
        <= b[0] && b[0] <= 'z') || ('A' <= b[0] && b[0] <= 'Z')));
    let mut s = base.to_owned();
    if !plain {
        s.push('\\');
    }
    s.append(part);
    s
}

/// `a` followed by `b`.
fn concat(a: &str, b: &str) -> (r: String)
    ensures
        r@ == a@ + b@,
{
    let mut s = a.to_owned();
    s.append(b);
    s
}

pub open spec fn guarded(t: TargetView, g: Seq<Seq<char>>) -> CandView {
    CandView { target: t, guards: g }
}

/// The directory `p`, kept when it exists.
pub open spec fn dir_c(p: Seq<char>) -> CandView {
    guarded(TargetView::Dir(p), seq![p])
}

/// `%SystemRoot%`, `C:\Windows` when unset.
pub open spec fn sys_root(env: PathEnv) -> Seq<char> {
    match env.system_root {
        Some(s) => s@,
        None => "C:\\Windows"@,
    }
}

pub open spec fn chrome_base(local: Seq<char>) -> Seq<char> {
    spec_path_join(spec_path_join(spec_path_join(local, "Google"@), "Chrome"@), "User Data"@)
}

pub open spec fn edge_base(local: Seq<char>) -> Seq<char> {
    spec_path_join(spec_path_join(spec_path_join(local, "Microsoft"@), "Edge"@), "User Data"@)
}

pub open spec fn firefox_root(roaming: Seq<char>) -> Seq<char> {
    spec_path_join(spec_path_join(spec_path_join(roaming, "Mozilla"@), "Firefox"@), "Profiles"@)
}

pub open spec fn chromium_subs() -> Seq<Seq<char>> {
    seq![
        "Cache"@,
        "Code Cache"@,
        "GPUCache"@,
        "Service Worker\\CacheStorage"@,
        "ShaderCache"@,
        "GrShaderCache"@,
        "DawnCache"@,
        "DawnGraphiteCache"@,
    ]
}

pub open spec fn firefox_subs() -> Seq<Seq<char>> {
    seq!["cache2"@, "startupCache"@, "shaderCache"@]
}

/// For each of `subs`, the directory `dir\sub`, kept when it and every
/// path of `outer` exist.
pub open spec fn sub_dirs(dir: Seq<char>, subs: Seq<Seq<char>>, outer: Seq<Seq<char>>) -> Seq<CandView>
    decreases subs.len(),
{
    if subs.len() == 0 {
        Seq::empty()
    } else {
        let p = spec_path_join(dir, subs.last());
        sub_dirs(dir, subs.drop_last(), outer).push(guarded(TargetView::Dir(p), outer.push(p)))
    }
}

/// The `Profile *` directories listed under a browser's data directory.
pub open spec fn named_profiles(base: Seq<char>, items: Seq<(Seq<char>, bool)>) -> Seq<Seq<char>>
    decreases items.len(),
{
    if items.len() == 0 {
        Seq::empty()
    } else {
        let rest = named_profiles(base, items.drop_last());
        if starts_with(items.last().0, "Profile "@) {
            rest.push(spec_path_join(base, items.last().0))
        } else {
            rest
        }
    }
}

/// A browser's profile directories: `Default`, then the listed
/// `Profile *` ones.
pub open spec fn profiles(base: Seq<char>, items: Seq<(Seq<char>, bool)>) -> Seq<Seq<char>> {
    seq![spec_path_join(base, "Default"@)] + named_profiles(base, items)
}

/// The cache directories of each profile, kept when the browser's data
/// directory, the profile and the cache directory exist.
pub open spec fn chromium_candidates(base: Seq<char>, profs: Seq<Seq<char>>) -> Seq<CandView>
    decreases profs.len(),
{
    if profs.len() == 0 {
        Seq::empty()
    } else {
        chromium_candidates(base, profs.drop_last()) + sub_dirs(
            profs.last(),
            chromium_subs(),
            seq![base, profs.last()],
        )
    }
}

/// The cache directories of each listed Firefox profile, kept when the
/// profiles directory and the cache directory exist.
pub open spec fn firefox_candidates(root: Seq<char>, items: Seq<(Seq<char>, bool)>) -> Seq<CandView>
    decreases items.len(),
{
    if items.len() == 0 {
        Seq::empty()
    } else {
        firefox_candidates(root, items.drop_last()) + sub_dirs(
            spec_path_join(root, items.last().0),
            firefox_subs(),
            seq![root],
        )
    }
}

pub open spec fn chromium_of(base: Seq<char>, ls: Seq<Listing>) -> Seq<CandView> {
    chromium_candidates(base, profiles(base, items_of(ls, base)))
}

/// `s` cut at every separator (`\` or `/`), empty pieces included.
pub open spec fn split_seps(s: Seq<char>) -> Seq<Seq<char>>
    decreases s.len(),
{
    if s.len() == 0 {
        seq![Seq::<char>::empty()]
    } else if is_sep(s.last()) {
        split_seps(s.drop_last()).push(Seq::empty())
    } else {
        let r = split_seps(s.drop_last());
        r.update(r.len() - 1, r.last().push(s.last()))
    }
}

/// The pieces that name something: neither empty nor `.`.
pub open spec fn named_pieces(parts: Seq<Seq<char>>) -> Seq<Seq<char>>
    decreases parts.len(),
{
    if parts.len() == 0 {
        parts
    } else {
        let r = named_pieces(parts.drop_last());
        if parts.last().len() == 0 || parts.last() == seq!['.'] {
            r
        } else {
            r.push(parts.last())
        }
    }
}

/// The path starts at a root: with a separator, or with a drive and a
/// separator.
pub open spec fn has_root(s: Seq<char>) -> bool {
    (s.len() > 0 && is_sep(s[0])) || (s.len() > 2 && s[1] == ':' && is_ascii_alpha(s[0]) && is_sep(
        s[2],
    ))
}

/// `a` and `b` name the same directory as paths compare: alike rooted, and
/// with the same pieces once repeated and trailing separators and `.`
/// pieces are set aside.
pub open spec fn same_dir(a: Seq<char>, b: Seq<char>) -> bool {
    has_root(a) == has_root(b) && named_pieces(split_seps(a)) == named_pieces(split_seps(b))
}

pub open spec fn pieces_view(v: Seq<Vec<char>>) -> Seq<Seq<char>> {
    v.map_values(|x: Vec<char>| x@)
}

fn split_seps_exec(s: &Vec<char>) -> (r: Vec<Vec<char>>)
    ensures
        pieces_view(r@) == split_seps(s@),
{
    let mut r: Vec<Vec<char>> = Vec::new();
    r.push(Vec::new());
    assert(s@.subrange(0, 0) =~= Seq::<char>::empty());
    assert(pieces_view(r@) =~= split_seps(s@.subrange(0, 0)));
    let mut i: usize = 0;
    while i < s.len()
        invariant
            i <= s.len(),
            r.len() >= 1,
            pieces_view(r@) == split_seps(s@.subrange(0, i as int)),
        decreases s.len() - i,
    {
        let c = s[i];
        let ghost t = s@.subrange(0, i + 1);
        assert(t.drop_last() =~= s@.subrange(0, i as int));
        assert(t.last() == c);
        let ghost before = pieces_view(r@);
        if c == '\\' || c == '/' {
            r.push(Vec::new());
            assert(pieces_view(r@) =~= before.push(Seq::<char>::empty()));
        } else {
            let mut cur = r.pop().unwrap();
            let ghost cv = cur@;
            cur.push(c);
            r.push(cur);
            assert(pieces_view(r@) =~= before.update(before.len() - 1, cv.push(c)));
        }
        i = i + 1;
    }
    assert(s@.subrange(0, i as int) =~= s@);
    r
}

fn named_pieces_exec(parts: &Vec<Vec<char>>) -> (r: Vec<Vec<char>>)
    ensures
        pieces_view(r@) == named_pieces(pieces_view(parts@)),
{
    let ghost pv = pieces_view(parts@);
    let mut r: Vec<Vec<char>> = Vec::new();
    let mut i: usize = 0;
    while i < parts.len()
        invariant
            i <= parts.len(),
            pv == pieces_view(parts@),
            pieces_view(r@) == named_pieces(pv.subrange(0, i as int)),
        decreases parts.len() - i,
    {
        let ghost t = pv.subrange(0, i + 1);
        assert(t.drop_last() =~= pv.subrange(0, i as int));
        assert(t.last() == parts@[i as int]@);
        let p = &parts[i];
        let dot = p.len() == 1 && p[0] == '.';
        assert(dot == (p@ == seq!['.'])) by {
            if p@ == seq!['.'] {
                assert(p@.len() == 1 && p@[0] == '.');
            }
            if dot {
                assert(p@ =~= seq!['.']);
            }
        }
        if !(p.len() == 0 || dot) {
            let ghost before = pieces_view(r@);
            r.push(p.clone());
            assert(pieces_view(r@) =~= before.push(p@));
        }
        i = i + 1;
    }
    assert(pv.subrange(0, i as int) =~= pv);
    r
}

fn pieces_eq(a: &Vec<Vec<char>>, b: &Vec<Vec<char>>) -> (r: bool)
    ensures
        r == (pieces_view(a@) == pieces_view(b@)),
{
    if a.len() != b.len() {
        assert(pieces_view(a@).len() != pieces_view(b@).len());
        return false;
    }
    let mut i: usize = 0;
    while i < a.len()
        invariant
            a.len() == b.len(),
            i <= a.len(),
            forall|k: int| 0 <= k < i ==> a@[k]@ == b@[k]@,
        decreases a.len() - i,
    {
        if !crate::text::chars_eq(&a[i], &b[i]) {
            assert(pieces_view(a@)[i as int] != pieces_view(b@)[i as int]);
            return false;
        }
        i = i + 1;
    }
    assert(pieces_view(a@) =~= pieces_view(b@));
    true
}

fn has_root_exec(s: &Vec<char>) -> (r: bool)
    ensures
        r == has_root(s@),
{
    (s.len() > 0 && (s[0] == '\\' || s[0] == '/')) || (s.len() > 2 && s[1] == ':' && (('a' <= s[0]
        && s[0] <= 'z') || ('A' <= s[0] && s[0] <= 'Z')) && (s[2] == '\\' || s[2] == '/'))
}

/// Whether `a` and `b` name the same directory as paths compare.
fn same_dir_exec(a: &str, b: &str) -> (r: bool)
    ensures
        r == same_dir(a@, b@),
{
    let x = chars_of(a);
    let y = chars_of(b);
    if has_root_exec(&x) != has_root_exec(&y) {
        return false;
    }
    let px = named_pieces_exec(&split_seps_exec(&x));
    let py = named_pieces_exec(&split_seps_exec(&y));
    pieces_eq(&px, &py)
}

pub open spec fn temp_candidates(env: PathEnv) -> Seq<CandView> {
    let temp = ov(env.temp);
    let first = match temp {
        Some(t) => seq![dir_c(t)],
        None => Seq::empty(),
    };
    // `%TMP%` naming the same directory as `%TEMP%` is not listed twice.
    let second = match ov(env.tmp) {
        Some(p) => if temp matches Some(t) && same_dir(t, p) {
            Seq::empty()
        } else {
            seq![dir_c(p)]
        },
        None => Seq::empty(),
    };
    let crash = match ov(env.local_data) {
        Some(l) => seq![dir_c(spec_path_join(l, "CrashDumps"@))],
        None => Seq::empty(),
    };
    first + second + seq![dir_c(sys_root(env) + "\\Temp"@)] + crash
}

pub open spec fn browser_candidates(env: PathEnv, ls: Seq<Listing>) -> Seq<CandView> {
    match ov(env.local_data) {
        None => Seq::empty(),
        Some(l) => {
            let ff = match ov(env.roaming_data) {
                Some(r) => firefox_candidates(firefox_root(r), items_of(ls, firefox_root(r))),
                None => Seq::empty(),
            };
            chromium_of(chrome_base(l), ls) + chromium_of(edge_base(l), ls) + ff
        },
    }
}

pub open spec fn update_candidates(env: PathEnv) -> Seq<CandView> {
    let sys = sys_root(env);
    seq![
        dir_c(sys + "\\SoftwareDistribution\\Download"@),
        dir_c(sys + "\\Logs\\CBS"@),
        dir_c(sys + "\\Logs\\WindowsUpdate"@),
    ]
}

pub open spec fn recycle_candidates() -> Seq<CandView> {
    seq![guarded(TargetView::RecycleBin("C:\\$Recycle.Bin"@), seq!["C:\\$Recycle.Bin"@])]
}

pub open spec fn explorer_dir(local: Seq<char>) -> Seq<char> {
    spec_path_join(spec_path_join(spec_path_join(local, "Microsoft"@), "Windows"@), "Explorer"@)
}

pub open spec fn thumbnail_candidates(env: PathEnv) -> Seq<CandView> {
    match ov(env.local_data) {
        None => Seq::empty(),
        Some(l) => {
            let ex = explorer_dir(l);
            let icon = spec_path_join(l, "IconCache.db"@);
            seq![
                guarded(TargetView::Files(ex, "thumbcache_*.db"@), seq![ex]),
                guarded(TargetView::Files(ex, "iconcache_*.db"@), seq![ex]),
                guarded(TargetView::File(icon), seq![icon]),
            ]
        },
    }
}

pub open spec fn error_report_candidates(env: PathEnv) -> Seq<CandView> {
    let pd = match env.program_data {
        Some(s) => s@,
        None => "C:\\ProgramData"@,
    };
    let local = match ov(env.local_data) {
        Some(l) => seq![
            dir_c(
                spec_path_join(spec_path_join(spec_path_join(l, "Microsoft"@), "Windows"@), "WER"@),
            ),
        ],
        None => Seq::empty(),
    };
    seq![dir_c(pd + "\\Microsoft\\Windows\\WER"@)] + local
}

pub open spec fn dump_candidates(env: PathEnv) -> Seq<CandView> {
    let sys = sys_root(env);
    let dmp = sys + "\\Memory.dmp"@;
    seq![
        guarded(TargetView::File(dmp), seq![dmp]),
        dir_c(sys + "\\Minidump"@),
        dir_c(sys + "\\LiveKernelReports"@),
    ]
}

/// `CBS` and `WindowsUpdate` under `Logs` belong to the Windows Update
/// category.
pub open spec fn is_update_log_dir(name: Seq<char>) -> bool {
    eq_ignore_ascii_case(name, "CBS"@) || eq_ignore_ascii_case(name, "WindowsUpdate"@)
}

/// The listed subdirectories of `Logs` other than the Windows Update ones,
/// kept as listed.
pub open spec fn log_dirs(logs: Seq<char>, items: Seq<(Seq<char>, bool)>) -> Seq<CandView>
    decreases items.len(),
{
    if items.len() == 0 {
        Seq::empty()
    } else {
        let rest = log_dirs(logs, items.drop_last());
        let it = items.last();
        if !is_update_log_dir(it.0) && it.1 {
            rest.push(guarded(TargetView::Dir(spec_path_join(logs, it.0)), Seq::empty()))
        } else {
            rest
        }
    }
}

pub open spec fn logs_dir(env: PathEnv) -> Seq<char> {
    sys_root(env) + "\\Logs"@
}

pub open spec fn log_candidates(env: PathEnv, ls: Seq<Listing>) -> Seq<CandView> {
    let sys = sys_root(env);
    let inf = sys + "\\inf"@;
    seq![
        dir_c(sys + "\\Panther"@),
        guarded(TargetView::Files(inf, "setupapi*.log"@), seq![inf]),
    ] + log_dirs(logs_dir(env), items_of(ls, logs_dir(env)))
}

pub open spec fn dev_candidates(env: PathEnv) -> Seq<CandView> {
    match ov(env.local_data) {
        None => Seq::empty(),
        Some(l) => {
            let cargo = match ov(env.home) {
                Some(h) => {
                    let reg = spec_path_join(spec_path_join(h, ".cargo"@), "registry"@);
                    seq![dir_c(spec_path_join(reg, "cache"@)), dir_c(spec_path_join(reg, "src"@))]
                },
                None => Seq::empty(),
            };
            seq![
                dir_c(spec_path_join(l, "npm-cache"@)),
                dir_c(spec_path_join(l, "pip\\Cache"@)),
                dir_c(spec_path_join(l, "NuGet\\v3-cache"@)),
            ] + cargo
        },
    }
}

/// The candidate targets of a category, in the order they are cleaned.
pub open spec fn spec_candidates(category: CleanCategory, env: PathEnv, ls: Seq<Listing>) -> Seq<
    CandView,
> {
    match category {
        CleanCategory::WindowsTemp => temp_candidates(env),
        CleanCategory::BrowserCache => browser_candidates(env, ls),
        CleanCategory::WindowsUpdate => update_candidates(env),
        CleanCategory::RecycleBin => recycle_candidates(),
        CleanCategory::Thumbnails => thumbnail_candidates(env),
        CleanCategory::ErrorReports => error_report_candidates(env),
        CleanCategory::MemoryDumps => dump_candidates(env),
        CleanCategory::WindowsLogs => log_candidates(env, ls),
        CleanCategory::DeliveryOptimization => seq![
            dir_c(sys_root(env) + "\\SoftwareDistribution\\DeliveryOptimization"@),
        ],
        CleanCategory::Prefetch => seq![dir_c(sys_root(env) + "\\Prefetch"@)],
        CleanCategory::DevCaches => dev_candidates(env),
    }
}

/// The directories whose entries a category's targets depend on.
pub open spec fn spec_listing_dirs(category: CleanCategory, env: PathEnv) -> Seq<Seq<char>> {
    match category {
        CleanCategory::BrowserCache => match ov(env.local_data) {
            None => Seq::empty(),
            Some(l) => seq![chrome_base(l), edge_base(l)] + match ov(env.roaming_data) {
                Some(r) => seq![firefox_root(r)],
                None => Seq::empty(),
            },
        },
        CleanCategory::WindowsLogs => seq![logs_dir(env)],
        _ => Seq::empty(),
    }
}

/// Every guard of the candidates, in order.
pub open spec fn guards_of(cs: Seq<CandView>) -> Seq<Seq<char>>
    decreases cs.len(),
{
    if cs.len() == 0 {
        Seq::empty()
    } else {
        guards_of(cs.drop_last()) + cs.last().guards
    }
}

pub open spec fn all_exist(guards: Seq<Seq<char>>, existing: Seq<Seq<char>>) -> bool {
    forall|i: int| 0 <= i < guards.len() ==> existing.contains(#[trigger] guards[i])
}

/// The targets of the candidates whose guards all exist.
pub open spec fn present(cs: Seq<CandView>, existing: Seq<Seq<char>>) -> Seq<TargetView>
    decreases cs.len(),
{
    if cs.len() == 0 {
        Seq::empty()
    } else {
        let rest = present(cs.drop_last(), existing);
        if all_exist(cs.last().guards, existing) {
            rest.push(cs.last().target)
        } else {
            rest
        }
    }
}


/// A candidate target and the paths that must exist for it to be kept.
struct Candidate {
    target: CleanTarget,
    guards: Vec<String>,
}

spec fn cand_view(c: Candidate) -> CandView {
    CandView { target: c.target@, guards: strs(c.guards@) }
}

spec fn cands_view(s: Seq<Candidate>) -> Seq<CandView> {
    s.map_values(|c: Candidate| cand_view(c))
}

fn clone_strings(v: &Vec<String>) -> (r: Vec<String>)
    ensures
        strs(r@) == strs(v@),
{
    let mut r: Vec<String> = Vec::new();
    let mut i: usize = 0;
    while i < v.len()
        invariant
            i <= v.len(),
            strs(r@) == strs(v@).subrange(0, i as int),
        decreases v.len() - i,
    {
        let ghost before = r@;
        let x = v[i].clone();
        assert(x@ == v@[i as int]@);
        let ghost xv = x@;
        r.push(x);
        assert(strs(r@) =~= strs(before).push(xv));
        assert(strs(v@).subrange(0, i + 1) =~= strs(v@).subrange(0, i as int).push(xv));
        i = i + 1;
    }
    assert(strs(v@).subrange(0, i as int) =~= strs(v@));
    r
}

fn clone_target(t: &CleanTarget) -> (r: CleanTarget)
    ensures
        r@ == t@,
{
    match t {
        CleanTarget::Dir(p) => CleanTarget::Dir(p.clone()),
        CleanTarget::Files { dir, pattern } => CleanTarget::Files {
            dir: dir.clone(),
            pattern: pattern.clone(),
        },
        CleanTarget::File(p) => CleanTarget::File(p.clone()),
        CleanTarget::RecycleBin(p) => CleanTarget::RecycleBin(p.clone()),
    }
}

fn guarded_by(target: CleanTarget, p: &String) -> (c: Candidate)
    ensures
        cand_view(c) == guarded(target@, seq![p@]),
{
    let mut g: Vec<String> = Vec::new();
    g.push(p.clone());
    let c = Candidate { target, guards: g };
    assert(strs(c.guards@) =~= seq![p@]);
    c
}

fn dir_cand(p: String) -> (c: Candidate)
    ensures
        cand_view(c) == dir_c(p@),
{
    let q = p.clone();
    guarded_by(CleanTarget::Dir(p), &q)
}

fn push_c(out: &mut Vec<Candidate>, c: Candidate)
    ensures
        cands_view(final(out)@) == cands_view(old(out)@).push(cand_view(c)),
{
    let ghost before = out@;
    let ghost cv = cand_view(c);
    out.push(c);
    assert(cands_view(out@) =~= cands_view(before).push(cv));
}

fn system_root(env: &PathEnv) -> (r: String)
    ensures
        r@ == sys_root(*env),
{
    match &env.system_root {
        Some(s) => s.clone(),
        None => "C:\\Windows".to_owned(),
    }
}

fn sys_dir(env: &PathEnv, tail: &str) -> (c: Candidate)
    ensures
        cand_view(c) == dir_c(sys_root(*env) + tail@),
{
    let sys = system_root(env);
    dir_cand(concat(sys.as_str(), tail))
}

/// The index of the first listing of `dir`.
fn find_listing(ls: &Vec<Listing>, dir: &String) -> (r: Option<usize>)
    ensures
        match r {
            Some(i) => i < ls.len() && items_of(ls@, dir@) == items_view(ls@[i as int].items@),
            None => items_of(ls@, dir@) == Seq::<(Seq<char>, bool)>::empty(),
        },
{
    let mut i: usize = 0;
    assert(ls@.subrange(0, ls.len() as int) =~= ls@);
    while i < ls.len()
        invariant
            i <= ls.len(),
            items_of(ls@, dir@) == items_of(ls@.subrange(i as int, ls.len() as int), dir@),
        decreases ls.len() - i,
    {
        let ghost rest = ls@.subrange(i as int, ls.len() as int);
        if ls[i].dir == *dir {
            return Some(i);
        }
        assert(rest.drop_first() =~= ls@.subrange(i + 1, ls.len() as int));
        i = i + 1;
    }
    None
}

fn chromium_sub_names() -> (v: Vec<String>)
    ensures
        strs(v@) == chromium_subs(),
{
    let mut v: Vec<String> = Vec::new();
    v.push("Cache".to_owned());
    v.push("Code Cache".to_owned());
    v.push("GPUCache".to_owned());
    v.push("Service Worker\\CacheStorage".to_owned());
    v.push("ShaderCache".to_owned());
    v.push("GrShaderCache".to_owned());
    v.push("DawnCache".to_owned());
    v.push("DawnGraphiteCache".to_owned());
    assert(strs(v@) =~= chromium_subs());
    v
}

fn firefox_sub_names() -> (v: Vec<String>)
    ensures
        strs(v@) == firefox_subs(),
{
    let mut v: Vec<String> = Vec::new();
    v.push("cache2".to_owned());
    v.push("startupCache".to_owned());
    v.push("shaderCache".to_owned());
    assert(strs(v@) =~= firefox_subs());
    v
}

fn push_sub_dirs(out: &mut Vec<Candidate>, dir: &String, subs: &Vec<String>, outer: &Vec<String>)
    ensures
        cands_view(final(out)@) == cands_view(old(out)@) + sub_dirs(dir@, strs(subs@), strs(outer@)),
{
    let ghost start = cands_view(out@);
    let ghost ss = strs(subs@);
    let ghost os = strs(outer@);
    let mut k: usize = 0;
    while k < subs.len()
        invariant
            k <= subs.len(),
            ss == strs(subs@),
            os == strs(outer@),
            cands_view(out@) == start + sub_dirs(dir@, ss.subrange(0, k as int), os),
        decreases subs.len() - k,
    {
        let p = path_join(dir.as_str(), subs[k].as_str());
        let mut g = clone_strings(outer);
        g.push(p.clone());
        assert(strs(g@) =~= os.push(p@));
        let ghost before = cands_view(out@);
        push_c(out, Candidate { target: CleanTarget::Dir(p), guards: g });
        proof {
            let s1 = ss.subrange(0, k + 1);
            assert(s1.drop_last() =~= ss.subrange(0, k as int));
            assert(s1.last() == subs@[k as int]@);
            assert(sub_dirs(dir@, s1, os) == sub_dirs(dir@, ss.subrange(0, k as int), os).push(
                guarded(TargetView::Dir(p@), os.push(p@)),
            ));
            assert(cands_view(out@) =~= start + sub_dirs(dir@, s1, os));
        }
        k = k + 1;
    }
    assert(ss.subrange(0, k as int) =~= ss);
}

/// The profile directories of the browser whose data directory is `base`.
fn profile_dirs(base: &String, items: &Vec<DirItem>) -> (r: Vec<String>)
    ensures
        strs(r@) == profiles(base@, items_view(items@)),
{
    let ghost iv = items_view(items@);
    let mut r: Vec<String> = Vec::new();
    r.push(path_join(base.as_str(), "Default"));
    let ghost first = strs(r@);
    assert(first =~= seq![spec_path_join(base@, "Default"@)]);
    let mut i: usize = 0;
    while i < items.len()
        invariant
            i <= items.len(),
            iv == items_view(items@),
            first == seq![spec_path_join(base@, "Default"@)],
            strs(r@) == first + named_profiles(base@, iv.subrange(0, i as int)),
        decreases items.len() - i,
    {
        let name = chars_of(items[i].name.as_str());
        let ghost s1 = iv.subrange(0, i + 1);
        proof {
            assert(s1.drop_last() =~= iv.subrange(0, i as int));
            assert(s1.last() == iv[i as int]);
        }
        if starts_with_lit(&name, "Profile ") {
            let ghost before = r@;
            r.push(path_join(base.as_str(), items[i].name.as_str()));
            assert(strs(r@) =~= strs(before).push(spec_path_join(base@, items@[i as int].name@)));
        }
        assert(strs(r@) =~= first + named_profiles(base@, s1));
        i = i + 1;
    }
    assert(iv.subrange(0, i as int) =~= iv);
    r
}

fn push_chromium(out: &mut Vec<Candidate>, base: &String, profs: &Vec<String>)
    ensures
        cands_view(final(out)@) == cands_view(old(out)@) + chromium_candidates(base@, strs(profs@)),
{
    let ghost start = cands_view(out@);
    let ghost ps = strs(profs@);
    let subs = chromium_sub_names();
    let mut j: usize = 0;
    while j < profs.len()
        invariant
            j <= profs.len(),
            ps == strs(profs@),
            strs(subs@) == chromium_subs(),
            cands_view(out@) == start + chromium_candidates(base@, ps.subrange(0, j as int)),
        decreases profs.len() - j,
    {
        let mut outer: Vec<String> = Vec::new();
        outer.push(base.clone());
        outer.push(profs[j].clone());
        assert(strs(outer@) =~= seq![base@, ps[j as int]]);
        let ghost before = cands_view(out@);
        push_sub_dirs(out, &profs[j], &subs, &outer);
        proof {
            let s1 = ps.subrange(0, j + 1);
            assert(s1.drop_last() =~= ps.subrange(0, j as int));
            assert(s1.last() == ps[j as int]);
            assert(cands_view(out@) =~= start + chromium_candidates(base@, s1));
        }
        j = j + 1;
    }
    assert(ps.subrange(0, j as int) =~= ps);
}

fn push_chromium_of(out: &mut Vec<Candidate>, base: &String, ls: &Vec<Listing>)
    ensures
        cands_view(final(out)@) == cands_view(old(out)@) + chromium_of(base@, ls@),
{
    let profs = match find_listing(ls, base) {
        Some(i) => profile_dirs(base, &ls[i].items),
        None => {
            let empty: Vec<DirItem> = Vec::new();
            assert(items_view(empty@) =~= Seq::<(Seq<char>, bool)>::empty());
            profile_dirs(base, &empty)
        },
    };
    push_chromium(out, base, &profs);
}

fn push_firefox(out: &mut Vec<Candidate>, root: &String, items: &Vec<DirItem>)
    ensures
        cands_view(final(out)@) == cands_view(old(out)@) + firefox_candidates(root@, items_view(items@)),
{
    let ghost start = cands_view(out@);
    let ghost iv = items_view(items@);
    let subs = firefox_sub_names();
    let mut outer: Vec<String> = Vec::new();
    outer.push(root.clone());
    assert(strs(outer@) =~= seq![root@]);
    let mut j: usize = 0;
    while j < items.len()
        invariant
            j <= items.len(),
            iv == items_view(items@),
            strs(subs@) == firefox_subs(),
            strs(outer@) == seq![root@],
            cands_view(out@) == start + firefox_candidates(root@, iv.subrange(0, j as int)),
        decreases items.len() - j,
    {
        let profile = path_join(root.as_str(), items[j].name.as_str());
        push_sub_dirs(out, &profile, &subs, &outer);
        proof {
            let s1 = iv.subrange(0, j + 1);
            assert(s1.drop_last() =~= iv.subrange(0, j as int));
            assert(s1.last() == iv[j as int]);
            assert(cands_view(out@) =~= start + firefox_candidates(root@, s1));
        }
        j = j + 1;
    }
    assert(iv.subrange(0, j as int) =~= iv);
}

fn join3(base: &str, a: &str, b: &str, c: &str) -> (r: String)
    ensures
        r@ == spec_path_join(spec_path_join(spec_path_join(base@, a@), b@), c@),
{
    let x = path_join(base, a);
    let y = path_join(x.as_str(), b);
    path_join(y.as_str(), c)
}


fn temp_targets(env: &PathEnv) -> (r: Vec<Candidate>)
    ensures
        cands_view(r@) == temp_candidates(*env),
{
    let mut out: Vec<Candidate> = Vec::new();
    match &env.temp {
        Some(t) => push_c(&mut out, dir_cand(t.clone())),
        None => {},
    }
    let ghost first = cands_view(out@);
    match &env.tmp {
        Some(p) => {
            let same = match &env.temp {
                Some(t) => same_dir_exec(t.as_str(), p.as_str()),
                None => false,
            };
            if !same {
                push_c(&mut out, dir_cand(p.clone()));
            }
        },
        None => {},
    }
    let ghost second = cands_view(out@);
    push_c(&mut out, sys_dir(env, "\\Temp"));
    match &env.local_data {
        Some(l) => push_c(&mut out, dir_cand(path_join(l.as_str(), "CrashDumps"))),
        None => {},
    }
    assert(cands_view(out@) =~= temp_candidates(*env));
    out
}

fn browser_targets(env: &PathEnv, ls: &Vec<Listing>) -> (r: Vec<Candidate>)
    ensures
        cands_view(r@) == browser_candidates(*env, ls@),
{
    let mut out: Vec<Candidate> = Vec::new();
    assert(cands_view(out@) =~= Seq::<CandView>::empty());
    match &env.local_data {
        None => {},
        Some(l) => {
            let chrome = join3(l.as_str(), "Google", "Chrome", "User Data");
            push_chromium_of(&mut out, &chrome, ls);
            let edge = join3(l.as_str(), "Microsoft", "Edge", "User Data");
            push_chromium_of(&mut out, &edge, ls);
            let ghost both = cands_view(out@);
            match &env.roaming_data {
                Some(r) => {
                    let root = join3(r.as_str(), "Mozilla", "Firefox", "Profiles");
                    match find_listing(ls, &root) {
                        Some(i) => push_firefox(&mut out, &root, &ls[i].items),
                        None => {
                            let empty: Vec<DirItem> = Vec::new();
                            assert(items_view(empty@) =~= Seq::<(Seq<char>, bool)>::empty());
                            push_firefox(&mut out, &root, &empty);
                        },
                    }
                },
                None => {
                    assert(cands_view(out@) =~= both + Seq::<CandView>::empty());
                },
            }
        },
    }
    assert(cands_view(out@) =~= browser_candidates(*env, ls@));
    out
}

fn update_targets(env: &PathEnv) -> (r: Vec<Candidate>)
    ensures
        cands_view(r@) == update_candidates(*env),
{
    let mut out: Vec<Candidate> = Vec::new();
    push_c(&mut out, sys_dir(env, "\\SoftwareDistribution\\Download"));
    push_c(&mut out, sys_dir(env, "\\Logs\\CBS"));
    push_c(&mut out, sys_dir(env, "\\Logs\\WindowsUpdate"));
    assert(cands_view(out@) =~= update_candidates(*env));
    out
}

fn recycle_targets() -> (r: Vec<Candidate>)
    ensures
        cands_view(r@) == recycle_candidates(),
{
    let mut out: Vec<Candidate> = Vec::new();
    let p = "C:\\$Recycle.Bin".to_owned();
    push_c(&mut out, guarded_by(CleanTarget::RecycleBin(p.clone()), &p));
    assert(cands_view(out@) =~= recycle_candidates());
    out
}

fn thumbnail_targets(env: &PathEnv) -> (r: Vec<Candidate>)
    ensures
        cands_view(r@) == thumbnail_candidates(*env),
{
    let mut out: Vec<Candidate> = Vec::new();
    match &env.local_data {
        None => {},
        Some(l) => {
            let ex = join3(l.as_str(), "Microsoft", "Windows", "Explorer");
            push_c(
                &mut out,
                guarded_by(
                    CleanTarget::Files { dir: ex.clone(), pattern: "thumbcache_*.db".to_owned() },
                    &ex,
                ),
            );
            push_c(
                &mut out,
                guarded_by(
                    CleanTarget::Files { dir: ex.clone(), pattern: "iconcache_*.db".to_owned() },
                    &ex,
                ),
            );
            let icon = path_join(l.as_str(), "IconCache.db");
            push_c(&mut out, guarded_by(CleanTarget::File(icon.clone()), &icon));
        },
    }
    assert(cands_view(out@) =~= thumbnail_candidates(*env));
    out
}

fn error_report_targets(env: &PathEnv) -> (r: Vec<Candidate>)
    ensures
        cands_view(r@) == error_report_candidates(*env),
{
    let mut out: Vec<Candidate> = Vec::new();
    let pd = match &env.program_data {
        Some(s) => s.clone(),
        None => "C:\\ProgramData".to_owned(),
    };
    push_c(&mut out, dir_cand(concat(pd.as_str(), "\\Microsoft\\Windows\\WER")));
    match &env.local_data {
        Some(l) => push_c(&mut out, dir_cand(join3(l.as_str(), "Microsoft", "Windows", "WER"))),
        None => {},
    }
    assert(cands_view(out@) =~= error_report_candidates(*env));
    out
}

fn dump_targets(env: &PathEnv) -> (r: Vec<Candidate>)
    ensures
        cands_view(r@) == dump_candidates(*env),
{
    let mut out: Vec<Candidate> = Vec::new();
    let sys = system_root(env);
    let dmp = concat(sys.as_str(), "\\Memory.dmp");
    push_c(&mut out, guarded_by(CleanTarget::File(dmp.clone()), &dmp));
    push_c(&mut out, sys_dir(env, "\\Minidump"));
    push_c(&mut out, sys_dir(env, "\\LiveKernelReports"));
    assert(cands_view(out@) =~= dump_candidates(*env));
    out
}

fn push_log_dirs(out: &mut Vec<Candidate>, logs: &String, items: &Vec<DirItem>)
    ensures
        cands_view(final(out)@) == cands_view(old(out)@) + log_dirs(logs@, items_view(items@)),
{
    let ghost start = cands_view(out@);
    let ghost iv = items_view(items@);
    let mut j: usize = 0;
    while j < items.len()
        invariant
            j <= items.len(),
            iv == items_view(items@),
            cands_view(out@) == start + log_dirs(logs@, iv.subrange(0, j as int)),
        decreases items.len() - j,
    {
        let name = items[j].name.as_str();
        let skip = same_ignoring_ascii_case(name, "CBS") || same_ignoring_ascii_case(
            name,
            "WindowsUpdate",
        );
        let ghost before = cands_view(out@);
        if !skip && items[j].is_dir {
            let c = Candidate { target: CleanTarget::Dir(path_join(logs.as_str(), name)), guards: Vec::new() };
            assert(strs(c.guards@) =~= Seq::<Seq<char>>::empty());
            push_c(out, c);
        }
        proof {
            let s1 = iv.subrange(0, j + 1);
            assert(s1.drop_last() =~= iv.subrange(0, j as int));
            assert(s1.last() == iv[j as int]);
            assert(cands_view(out@) =~= start + log_dirs(logs@, s1));
        }
        j = j + 1;
    }
    assert(iv.subrange(0, j as int) =~= iv);
}

fn log_targets(env: &PathEnv, ls: &Vec<Listing>) -> (r: Vec<Candidate>)
    ensures
        cands_view(r@) == log_candidates(*env, ls@),
{
    let mut out: Vec<Candidate> = Vec::new();
    let sys = system_root(env);
    push_c(&mut out, sys_dir(env, "\\Panther"));
    let inf = concat(sys.as_str(), "\\inf");
    push_c(
        &mut out,
        guarded_by(CleanTarget::Files { dir: inf.clone(), pattern: "setupapi*.log".to_owned() }, &inf),
    );
    let logs = concat(sys.as_str(), "\\Logs");
    match find_listing(ls, &logs) {
        Some(i) => push_log_dirs(&mut out, &logs, &ls[i].items),
        None => {
            let empty: Vec<DirItem> = Vec::new();
            assert(items_view(empty@) =~= Seq::<(Seq<char>, bool)>::empty());
            push_log_dirs(&mut out, &logs, &empty);
        },
    }
    assert(cands_view(out@) =~= log_candidates(*env, ls@));
    out
}

fn dev_targets(env: &PathEnv) -> (r: Vec<Candidate>)
    ensures
        cands_view(r@) == dev_candidates(*env),
{
    let mut out: Vec<Candidate> = Vec::new();
    match &env.local_data {
        None => {},
        Some(l) => {
            push_c(&mut out, dir_cand(path_join(l.as_str(), "npm-cache")));
            push_c(&mut out, dir_cand(path_join(l.as_str(), "pip\\Cache")));
            push_c(&mut out, dir_cand(path_join(l.as_str(), "NuGet\\v3-cache")));
            match &env.home {
                Some(h) => {
                    let cargo = path_join(h.as_str(), ".cargo");
                    let reg = path_join(cargo.as_str(), "registry");
                    push_c(&mut out, dir_cand(path_join(reg.as_str(), "cache")));
                    push_c(&mut out, dir_cand(path_join(reg.as_str(), "src")));
                },
                None => {},
            }
        },
    }
    assert(cands_view(out@) =~= dev_candidates(*env));
    out
}

fn candidates(category: CleanCategory, env: &PathEnv, ls: &Vec<Listing>) -> (r: Vec<Candidate>)
    ensures
        cands_view(r@) == spec_candidates(category, *env, ls@),
{
    match category {
        CleanCategory::WindowsTemp => temp_targets(env),
        CleanCategory::BrowserCache => browser_targets(env, ls),
        CleanCategory::WindowsUpdate => update_targets(env),
        CleanCategory::RecycleBin => recycle_targets(),
        CleanCategory::Thumbnails => thumbnail_targets(env),
        CleanCategory::ErrorReports => error_report_targets(env),
        CleanCategory::MemoryDumps => dump_targets(env),
        CleanCategory::WindowsLogs => log_targets(env, ls),
        CleanCategory::DeliveryOptimization => {
            let mut out: Vec<Candidate> = Vec::new();
            push_c(&mut out, sys_dir(env, "\\SoftwareDistribution\\DeliveryOptimization"));
            assert(cands_view(out@) =~= spec_candidates(category, *env, ls@));
            out
        },
        CleanCategory::Prefetch => {
            let mut out: Vec<Candidate> = Vec::new();
            push_c(&mut out, sys_dir(env, "\\Prefetch"));
            assert(cands_view(out@) =~= spec_candidates(category, *env, ls@));
            out
        },
        CleanCategory::DevCaches => dev_targets(env),
    }
}

/// The directories whose listings the targets of `category` depend on.
pub fn listing_dirs(category: CleanCategory, env: &PathEnv) -> (r: Vec<String>)
    ensures
        strs(r@) == spec_listing_dirs(category, *env),
{
    let mut out: Vec<String> = Vec::new();
    match category {
        CleanCategory::BrowserCache => match &env.local_data {
            None => {},
            Some(l) => {
                out.push(join3(l.as_str(), "Google", "Chrome", "User Data"));
                out.push(join3(l.as_str(), "Microsoft", "Edge", "User Data"));
                match &env.roaming_data {
                    Some(r) => out.push(join3(r.as_str(), "Mozilla", "Firefox", "Profiles")),
                    None => {},
                }
            },
        },
        CleanCategory::WindowsLogs => {
            let sys = system_root(env);
            out.push(concat(sys.as_str(), "\\Logs"));
        },
        _ => {},
    }
    assert(strs(out@) =~= spec_listing_dirs(category, *env));
    out
}

/// Every path whose existence decides which targets of `category` are
/// kept, given the listings of `listing_dirs`.
pub fn probe_paths(category: CleanCategory, env: &PathEnv, ls: &Vec<Listing>) -> (r: Vec<String>)
    ensures
        strs(r@) == guards_of(spec_candidates(category, *env, ls@)),
{
    let cs = candidates(category, env, ls);
    let ghost cv = cands_view(cs@);
    let mut out: Vec<String> = Vec::new();
    let mut i: usize = 0;
    while i < cs.len()
        invariant
            i <= cs.len(),
            cv == cands_view(cs@),
            strs(out@) == guards_of(cv.subrange(0, i as int)),
        decreases cs.len() - i,
    {
        let g = clone_strings(&cs[i].guards);
        let ghost before = strs(out@);
        let mut g = g;
        out.append(&mut g);
        proof {
            let s1 = cv.subrange(0, i + 1);
            assert(s1.drop_last() =~= cv.subrange(0, i as int));
            assert(s1.last() == cv[i as int]);
            assert(strs(out@) =~= guards_of(s1));
        }
        i = i + 1;
    }
    assert(cv.subrange(0, i as int) =~= cv);
    out
}

/// Whether `existing` holds `p`.
fn holds(existing: &Vec<String>, p: &String) -> (r: bool)
    ensures
        r == strs(existing@).contains(p@),
{
    let mut i: usize = 0;
    while i < existing.len()
        invariant
            i <= existing.len(),
            forall|k: int| 0 <= k < i ==> existing@[k]@ != p@,
        decreases existing.len() - i,
    {
        if existing[i] == *p {
            assert(strs(existing@)[i as int] == p@);
            return true;
        }
        i = i + 1;
    }
    assert(!strs(existing@).contains(p@)) by {
        if strs(existing@).contains(p@) {
            let k = choose|k: int| 0 <= k < strs(existing@).len() && strs(existing@)[k] == p@;
            assert(existing@[k]@ == p@);
        }
    }
    false
}

fn guards_exist(guards: &Vec<String>, existing: &Vec<String>) -> (r: bool)
    ensures
        r == all_exist(strs(guards@), strs(existing@)),
{
    let mut i: usize = 0;
    while i < guards.len()
        invariant
            i <= guards.len(),
            forall|k: int| 0 <= k < i ==> strs(existing@).contains(#[trigger] strs(guards@)[k]),
        decreases guards.len() - i,
    {
        if !holds(existing, &guards[i]) {
            assert(!strs(existing@).contains(strs(guards@)[i as int]));
            return false;
        }
        i = i + 1;
    }
    true
}

/// The targets of `category`: its candidates, given the listings of
/// `listing_dirs`, whose guarding paths are all among `existing`, the
/// paths of `probe_paths` that exist.
pub fn paths_for(category: CleanCategory, env: &PathEnv, ls: &Vec<Listing>, existing: &Vec<String>) -> (r: Vec<CleanTarget>)
    ensures
        r@.map_values(|t: CleanTarget| t@) == present(spec_candidates(category, *env, ls@), strs(existing@)),
{
    let cs = candidates(category, env, ls);
    let ghost cv = cands_view(cs@);
    let ghost ex = strs(existing@);
    let mut out: Vec<CleanTarget> = Vec::new();
    let mut i: usize = 0;
    while i < cs.len()
        invariant
            i <= cs.len(),
            cv == cands_view(cs@),
            ex == strs(existing@),
            out@.map_values(|t: CleanTarget| t@) == present(cv.subrange(0, i as int), ex),
        decreases cs.len() - i,
    {
        let ghost before = out@;
        if guards_exist(&cs[i].guards, existing) {
            out.push(clone_target(&cs[i].target));
        }
        proof {
            let s1 = cv.subrange(0, i + 1);
            assert(s1.drop_last() =~= cv.subrange(0, i as int));
            assert(s1.last() == cv[i as int]);
            assert(out@.map_values(|t: CleanTarget| t@) =~= present(s1, ex));
        }
        i = i + 1;
    }
    assert(cv.subrange(0, i as int) =~= cv);
    out
}


/// When every path `probe_paths` names exists, `paths_for` keeps every
/// candidate: the targets are all the candidates', in order.
pub proof fn lemma_all_probes_exist(cs: Seq<CandView>, existing: Seq<Seq<char>>)
    requires
        forall|j: int| 0 <= j < guards_of(cs).len() ==> existing.contains(#[trigger] guards_of(cs)[j]),
    ensures
        present(cs, existing) == cs.map_values(|c: CandView| c.target),
    decreases cs.len(),
{
    if cs.len() > 0 {
        let d = cs.drop_last();
        assert forall|j: int| 0 <= j < guards_of(d).len() implies existing.contains(#[trigger] guards_of(d)[j]) by {
            assert(guards_of(cs)[j] == guards_of(d)[j]);
        }
        lemma_all_probes_exist(d, existing);
        assert forall|i: int| 0 <= i < cs.last().guards.len() implies existing.contains(#[trigger] cs.last().guards[i]) by {
            let base = guards_of(d).len();
            assert(guards_of(cs)[base + i] == cs.last().guards[i]);
        }
        assert(present(cs, existing) =~= cs.map_values(|c: CandView| c.target));
    } else {
        assert(present(cs, existing) =~= cs.map_values(|c: CandView| c.target));
    }
}


/// No candidate is a recycle bin.
pub open spec fn no_bin(cs: Seq<CandView>) -> bool {
    forall|k: int| 0 <= k < cs.len() ==> !(#[trigger] cs[k].target is RecycleBin)
}

proof fn lemma_no_bin_concat(a: Seq<CandView>, b: Seq<CandView>)
    requires
        no_bin(a),
        no_bin(b),
    ensures
        no_bin(a + b),
{
    assert forall|k: int| 0 <= k < (a + b).len() implies !(#[trigger] (a + b)[k].target is RecycleBin) by {
        if k < a.len() {
            assert((a + b)[k] == a[k]);
        } else {
            assert((a + b)[k] == b[k - a.len()]);
        }
    }
}

proof fn lemma_no_bin_push(a: Seq<CandView>, c: CandView)
    requires
        no_bin(a),
        !(c.target is RecycleBin),
    ensures
        no_bin(a.push(c)),
{
    assert forall|k: int| 0 <= k < a.push(c).len() implies !(#[trigger] a.push(c)[k].target is RecycleBin) by {
        if k < a.len() {
            assert(a.push(c)[k] == a[k]);
        }
    }
}

proof fn lemma_sub_dirs_no_bin(dir: Seq<char>, subs: Seq<Seq<char>>, outer: Seq<Seq<char>>)
    ensures
        no_bin(sub_dirs(dir, subs, outer)),
    decreases subs.len(),
{
    if subs.len() > 0 {
        lemma_sub_dirs_no_bin(dir, subs.drop_last(), outer);
        let p = spec_path_join(dir, subs.last());
        lemma_no_bin_push(sub_dirs(dir, subs.drop_last(), outer), guarded(TargetView::Dir(p), outer.push(p)));
    }
}

proof fn lemma_chromium_no_bin(base: Seq<char>, profs: Seq<Seq<char>>)
    ensures
        no_bin(chromium_candidates(base, profs)),
    decreases profs.len(),
{
    if profs.len() > 0 {
        lemma_chromium_no_bin(base, profs.drop_last());
        lemma_sub_dirs_no_bin(profs.last(), chromium_subs(), seq![base, profs.last()]);
        lemma_no_bin_concat(
            chromium_candidates(base, profs.drop_last()),
            sub_dirs(profs.last(), chromium_subs(), seq![base, profs.last()]),
        );
    }
}

proof fn lemma_firefox_no_bin(root: Seq<char>, items: Seq<(Seq<char>, bool)>)
    ensures
        no_bin(firefox_candidates(root, items)),
    decreases items.len(),
{
    if items.len() > 0 {
        lemma_firefox_no_bin(root, items.drop_last());
        let dir = spec_path_join(root, items.last().0);
        lemma_sub_dirs_no_bin(dir, firefox_subs(), seq![root]);
        lemma_no_bin_concat(firefox_candidates(root, items.drop_last()), sub_dirs(dir, firefox_subs(), seq![root]));
    }
}

proof fn lemma_log_dirs_no_bin(logs: Seq<char>, items: Seq<(Seq<char>, bool)>)
    ensures
        no_bin(log_dirs(logs, items)),
    decreases items.len(),
{
    if items.len() > 0 {
        lemma_log_dirs_no_bin(logs, items.drop_last());
        let it = items.last();
        if !is_update_log_dir(it.0) && it.1 {
            lemma_no_bin_push(
                log_dirs(logs, items.drop_last()),
                guarded(TargetView::Dir(spec_path_join(logs, it.0)), Seq::empty()),
            );
        }
    }
}

/// Every kept target is the target of some candidate.
proof fn lemma_present_from(cs: Seq<CandView>, existing: Seq<Seq<char>>, k: int)
    requires
        0 <= k < present(cs, existing).len(),
    ensures
        exists|j: int| 0 <= j < cs.len() && cs[j].target == #[trigger] present(cs, existing)[k],
    decreases cs.len(),
{
    let d = cs.drop_last();
    let r = present(d, existing);
    if k < r.len() {
        lemma_present_from(d, existing, k);
        let j = choose|j: int| 0 <= j < d.len() && d[j].target == r[k];
        assert(cs[j] == d[j]);
    } else {
        assert(cs[cs.len() - 1].target == present(cs, existing)[k]);
    }
}

/// Only the recycle-bin category empties the recycle bin, and it names
/// nothing else: its targets are `C:\$Recycle.Bin` as a recycle bin when
/// that exists, else none.
pub proof fn lemma_recycle_bin_only_there(
    category: CleanCategory,
    env: PathEnv,
    ls: Seq<Listing>,
    existing: Seq<Seq<char>>,
)
    ensures
        category != CleanCategory::RecycleBin ==> forall|k: int|
            0 <= k < present(spec_candidates(category, env, ls), existing).len() ==> !(
            #[trigger] present(spec_candidates(category, env, ls), existing)[k] is RecycleBin),
        category == CleanCategory::RecycleBin ==> present(spec_candidates(category, env, ls), existing)
            == (if existing.contains("C:\\$Recycle.Bin"@) {
            seq![TargetView::RecycleBin("C:\\$Recycle.Bin"@)]
        } else {
            Seq::<TargetView>::empty()
        }),
{
    let cs = spec_candidates(category, env, ls);
    if category == CleanCategory::RecycleBin {
        let c = recycle_candidates();
        assert(cs == c);
        assert(c.drop_last() =~= Seq::<CandView>::empty());
        assert(present(c.drop_last(), existing) == Seq::<TargetView>::empty());
        assert(all_exist(c[0].guards, existing) == existing.contains("C:\\$Recycle.Bin"@)) by {
            if existing.contains("C:\\$Recycle.Bin"@) {
                assert forall|i: int| 0 <= i < c[0].guards.len() implies existing.contains(
                    #[trigger] c[0].guards[i],
                ) by {
                    assert(c[0].guards[i] == "C:\\$Recycle.Bin"@);
                }
            } else {
                assert(c[0].guards[0] == "C:\\$Recycle.Bin"@);
            }
        }
        assert(present(cs, existing) =~= (if existing.contains("C:\\$Recycle.Bin"@) {
            seq![TargetView::RecycleBin("C:\\$Recycle.Bin"@)]
        } else {
            Seq::<TargetView>::empty()
        }));
    } else {
        assert(no_bin(cs)) by {
            match category {
                CleanCategory::WindowsTemp => {},
                CleanCategory::BrowserCache => {
                    match ov(env.local_data) {
                        None => {},
                        Some(l) => {
                            lemma_chromium_no_bin(chrome_base(l), profiles(chrome_base(l), items_of(ls, chrome_base(l))));
                            lemma_chromium_no_bin(edge_base(l), profiles(edge_base(l), items_of(ls, edge_base(l))));
                            lemma_no_bin_concat(chromium_of(chrome_base(l), ls), chromium_of(edge_base(l), ls));
                            match ov(env.roaming_data) {
                                Some(r) => {
                                    lemma_firefox_no_bin(firefox_root(r), items_of(ls, firefox_root(r)));
                                    lemma_no_bin_concat(
                                        chromium_of(chrome_base(l), ls) + chromium_of(edge_base(l), ls),
                                        firefox_candidates(firefox_root(r), items_of(ls, firefox_root(r))),
                                    );
                                },
                                None => {
                                    lemma_no_bin_concat(
                                        chromium_of(chrome_base(l), ls) + chromium_of(edge_base(l), ls),
                                        Seq::empty(),
                                    );
                                },
                            }
                        },
                    }
                },
                CleanCategory::WindowsLogs => {
                    let sys = sys_root(env);
                    let inf = sys + "\\inf"@;
                    lemma_log_dirs_no_bin(logs_dir(env), items_of(ls, logs_dir(env)));
                    lemma_no_bin_concat(
                        seq![
                            dir_c(sys + "\\Panther"@),
                            guarded(TargetView::Files(inf, "setupapi*.log"@), seq![inf]),
                        ],
                        log_dirs(logs_dir(env), items_of(ls, logs_dir(env))),
                    );
                },
                CleanCategory::ErrorReports => {},
                CleanCategory::DevCaches => {},
                _ => {},
            }
        }
        assert forall|k: int| 0 <= k < present(cs, existing).len() implies !(
        #[trigger] present(cs, existing)[k] is RecycleBin) by {
            lemma_present_from(cs, existing, k);
        }
    }
}


/// The target is not (in any letter case) the `CBS` or `WindowsUpdate`
/// folder under `logs`.
pub open spec fn clear_of_update_logs(t: TargetView, logs: Seq<char>) -> bool {
    t matches TargetView::Dir(p) ==> !eq_ignore_ascii_case(p, logs + "\\CBS"@) && !eq_ignore_ascii_case(
        p,
        logs + "\\WindowsUpdate"@,
    )
}

proof fn lemma_tail_case(p: Seq<char>, q: Seq<char>, l: int, n: Seq<char>, w: Seq<char>)
    requires
        0 <= l <= q.len(),
        p == q.subrange(0, l) + n,
        q.len() == l + w.len(),
        q.subrange(l, q.len() as int) == w,
        eq_ignore_ascii_case(p, q),
    ensures
        eq_ignore_ascii_case(n, w),
{
    assert(p.len() == l + n.len());
    assert(n.len() == w.len());
    assert forall|i: int| 0 <= i < n.len() implies ascii_lower(n[i]) == ascii_lower(w[i]) by {
        assert(p[l + i] == n[i]);
        assert(q[l + i] == w[i]);
        assert(ascii_lower(p[l + i]) == ascii_lower(q[l + i]));
    }
}

proof fn lemma_join_clear(logs: Seq<char>, n: Seq<char>)
    requires
        logs.len() > 2,
        !is_sep(logs.last()),
        !is_update_log_dir(n),
    ensures
        clear_of_update_logs(TargetView::Dir(spec_path_join(logs, n)), logs),
{
    reveal_strlit("\\CBS");
    reveal_strlit("CBS");
    reveal_strlit("\\WindowsUpdate");
    reveal_strlit("WindowsUpdate");
    let p = spec_path_join(logs, n);
    let l: int = logs.len() as int + 1;
    assert(p == logs + seq!['\\'] + n);
    let q1 = logs + "\\CBS"@;
    let q2 = logs + "\\WindowsUpdate"@;
    if eq_ignore_ascii_case(p, q1) {
        assert(q1.subrange(0, l) =~= logs + seq!['\\']);
        assert(p =~= q1.subrange(0, l) + n);
        assert(q1.subrange(l, q1.len() as int) =~= "CBS"@);
        lemma_tail_case(p, q1, l, n, "CBS"@);
    }
    if eq_ignore_ascii_case(p, q2) {
        assert(q2.subrange(0, l) =~= logs + seq!['\\']);
        assert(p =~= q2.subrange(0, l) + n);
        assert(q2.subrange(l, q2.len() as int) =~= "WindowsUpdate"@);
        lemma_tail_case(p, q2, l, n, "WindowsUpdate"@);
    }
}

proof fn lemma_log_dirs_clear(logs: Seq<char>, items: Seq<(Seq<char>, bool)>)
    requires
        logs.len() > 2,
        !is_sep(logs.last()),
    ensures
        forall|k: int| 0 <= k < log_dirs(logs, items).len() ==> clear_of_update_logs(
            #[trigger] log_dirs(logs, items)[k].target,
            logs,
        ),
    decreases items.len(),
{
    if items.len() > 0 {
        lemma_log_dirs_clear(logs, items.drop_last());
        let it = items.last();
        let rest = log_dirs(logs, items.drop_last());
        if !is_update_log_dir(it.0) && it.1 {
            lemma_join_clear(logs, it.0);
            let c = guarded(TargetView::Dir(spec_path_join(logs, it.0)), Seq::empty());
            assert forall|k: int| 0 <= k < rest.push(c).len() implies clear_of_update_logs(
                #[trigger] rest.push(c)[k].target,
                logs,
            ) by {
                if k < rest.len() {
                    assert(rest.push(c)[k] == rest[k]);
                }
            }
        }
    }
}

/// The Windows logs category leaves the `CBS` and `WindowsUpdate` folders
/// under `Logs` (in any letter case) to the Windows Update category: none
/// of its targets is either of them.
pub proof fn lemma_logs_skip_update_folders(env: PathEnv, ls: Seq<Listing>, existing: Seq<Seq<char>>)
    ensures
        forall|k: int|
            0 <= k < present(spec_candidates(CleanCategory::WindowsLogs, env, ls), existing).len()
                ==> clear_of_update_logs(
                #[trigger] present(spec_candidates(CleanCategory::WindowsLogs, env, ls), existing)[k],
                logs_dir(env),
            ),
{
    reveal_strlit("\\Logs");
    reveal_strlit("\\Panther");
    reveal_strlit("\\CBS");
    reveal_strlit("\\WindowsUpdate");
    let cs = spec_candidates(CleanCategory::WindowsLogs, env, ls);
    let sys = sys_root(env);
    let logs = logs_dir(env);
    let inf = sys + "\\inf"@;
    let head = seq![dir_c(sys + "\\Panther"@), guarded(TargetView::Files(inf, "setupapi*.log"@), seq![inf])];
    let tail = log_dirs(logs, items_of(ls, logs));
    assert(logs.last() == 's');
    lemma_log_dirs_clear(logs, items_of(ls, logs));
    assert(cs == head + tail);
    assert forall|j: int| 0 <= j < cs.len() implies clear_of_update_logs(#[trigger] cs[j].target, logs) by {
        if j >= 2 {
            assert(cs[j] == tail[j - 2]);
        } else if j == 0 {
            let p = sys + "\\Panther"@;
            assert(p.len() != (logs + "\\CBS"@).len());
            assert(p.len() != (logs + "\\WindowsUpdate"@).len());
        }
    }
    assert forall|k: int| 0 <= k < present(cs, existing).len() implies clear_of_update_logs(
        #[trigger] present(cs, existing)[k],
        logs,
    ) by {
        lemma_present_from(cs, existing, k);
    }
}

proof fn lemma_named_profiles_has(base: Seq<char>, items: Seq<(Seq<char>, bool)>, k: int)
    requires
        0 <= k < items.len(),
        starts_with(items[k].0, "Profile "@),
    ensures
        named_profiles(base, items).contains(spec_path_join(base, items[k].0)),
    decreases items.len(),
{
    let d = items.drop_last();
    let rest = named_profiles(base, d);
    let x = spec_path_join(base, items[k].0);
    if k == items.len() - 1 {
        assert(named_profiles(base, items) == rest.push(x));
        assert(rest.push(x)[rest.len() as int] == x);
    } else {
        assert(d[k] == items[k]);
        lemma_named_profiles_has(base, d, k);
        let i = choose|i: int| 0 <= i < rest.len() && rest[i] == x;
        if starts_with(items.last().0, "Profile "@) {
            assert(named_profiles(base, items)[i] == x);
        }
    }
}

proof fn lemma_sub_dirs_len(dir: Seq<char>, subs: Seq<Seq<char>>, outer: Seq<Seq<char>>)
    ensures
        sub_dirs(dir, subs, outer).len() == subs.len(),
    decreases subs.len(),
{
    if subs.len() > 0 {
        lemma_sub_dirs_len(dir, subs.drop_last(), outer);
    }
}

proof fn lemma_sub_dirs_at(dir: Seq<char>, subs: Seq<Seq<char>>, outer: Seq<Seq<char>>, s: int)
    requires
        0 <= s < subs.len(),
    ensures
        sub_dirs(dir, subs, outer).len() == subs.len(),
        sub_dirs(dir, subs, outer)[s] == guarded(
            TargetView::Dir(spec_path_join(dir, subs[s])),
            outer.push(spec_path_join(dir, subs[s])),
        ),
    decreases subs.len(),
{
    let d = subs.drop_last();
    lemma_sub_dirs_len(dir, subs, outer);
    lemma_sub_dirs_len(dir, d, outer);
    if s < subs.len() - 1 {
        assert(d[s] == subs[s]);
        lemma_sub_dirs_at(dir, d, outer, s);
    }
}

proof fn lemma_chromium_has(base: Seq<char>, profs: Seq<Seq<char>>, m: int, c: CandView)
    requires
        0 <= m < profs.len(),
        sub_dirs(profs[m], chromium_subs(), seq![base, profs[m]]).contains(c),
    ensures
        chromium_candidates(base, profs).contains(c),
    decreases profs.len(),
{
    let d = profs.drop_last();
    let front = chromium_candidates(base, d);
    let back = sub_dirs(profs.last(), chromium_subs(), seq![base, profs.last()]);
    assert(chromium_candidates(base, profs) == front + back);
    if m == profs.len() - 1 {
        let i = choose|i: int| 0 <= i < back.len() && back[i] == c;
        assert((front + back)[front.len() + i] == c);
    } else {
        assert(d[m] == profs[m]);
        lemma_chromium_has(base, d, m, c);
        let i = choose|i: int| 0 <= i < front.len() && front[i] == c;
        assert((front + back)[i] == c);
    }
}

proof fn lemma_present_has(cs: Seq<CandView>, existing: Seq<Seq<char>>, j: int)
    requires
        0 <= j < cs.len(),
        all_exist(cs[j].guards, existing),
    ensures
        present(cs, existing).contains(cs[j].target),
    decreases cs.len(),
{
    let d = cs.drop_last();
    let rest = present(d, existing);
    if j == cs.len() - 1 {
        assert(present(cs, existing) == rest.push(cs[j].target));
        assert(rest.push(cs[j].target)[rest.len() as int] == cs[j].target);
    } else {
        assert(d[j] == cs[j]);
        lemma_present_has(d, existing, j);
        let i = choose|i: int| 0 <= i < rest.len() && rest[i] == cs[j].target;
        if all_exist(cs.last().guards, existing) {
            assert(present(cs, existing)[i] == cs[j].target);
        }
    }
}

/// Every listed entry of the Chrome or Edge data directory whose name
/// starts with `Profile ` has each browser cache directory under it among
/// the browser-cache candidates, guarded by the data directory, the
/// profile and the cache directory itself; so when those three exist,
/// `paths_for` cleans it.
pub proof fn lemma_every_named_profile_cleaned(
    env: PathEnv,
    ls: Seq<Listing>,
    existing: Seq<Seq<char>>,
    edge: bool,
    k: int,
    s: int,
)
    requires
        env.local_data is Some,
        ({
            let l = env.local_data->0@;
            let base = if edge { edge_base(l) } else { chrome_base(l) };
            let items = items_of(ls, base);
            &&& 0 <= k < items.len()
            &&& starts_with(items[k].0, "Profile "@)
        }),
        0 <= s < chromium_subs().len(),
    ensures
        ({
            let l = env.local_data->0@;
            let base = if edge { edge_base(l) } else { chrome_base(l) };
            let prof = spec_path_join(base, items_of(ls, base)[k].0);
            let cache = spec_path_join(prof, chromium_subs()[s]);
            let cs = spec_candidates(CleanCategory::BrowserCache, env, ls);
            &&& cs.contains(guarded(TargetView::Dir(cache), seq![base, prof, cache]))
            &&& (existing.contains(base) && existing.contains(prof) && existing.contains(cache))
                ==> present(cs, existing).contains(TargetView::Dir(cache))
        }),
{
    let l = env.local_data->0@;
    let base = if edge { edge_base(l) } else { chrome_base(l) };
    let items = items_of(ls, base);
    let prof = spec_path_join(base, items[k].0);
    let cache = spec_path_join(prof, chromium_subs()[s]);
    let c = guarded(TargetView::Dir(cache), seq![base, prof, cache]);
    lemma_named_profiles_has(base, items, k);
    let named = named_profiles(base, items);
    let i = choose|i: int| 0 <= i < named.len() && named[i] == prof;
    let profs = profiles(base, items);
    assert(profs[i + 1] == prof);
    lemma_sub_dirs_at(prof, chromium_subs(), seq![base, prof], s);
    assert(seq![base, prof].push(cache) =~= seq![base, prof, cache]);
    let sd = sub_dirs(prof, chromium_subs(), seq![base, prof]);
    assert(sd[s] == c);
    lemma_chromium_has(base, profs, i + 1, c);
    let ch = chromium_of(chrome_base(l), ls);
    let ed = chromium_of(edge_base(l), ls);
    let ff = match ov(env.roaming_data) {
        Some(r) => firefox_candidates(firefox_root(r), items_of(ls, firefox_root(r))),
        None => Seq::empty(),
    };
    let cs = spec_candidates(CleanCategory::BrowserCache, env, ls);
    assert(cs == ch + ed + ff);
    let own = if edge { ed } else { ch };
    let j = choose|j: int| 0 <= j < own.len() && own[j] == c;
    let at = if edge { ch.len() + j } else { j };
    assert(cs[at] == c);
    if existing.contains(base) && existing.contains(prof) && existing.contains(cache) {
        assert(all_exist(c.guards, existing));
        lemma_present_has(cs, existing, at);
    }
}

} // verus!
