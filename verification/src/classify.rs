//! Cleanability classification of a file or directory path.
//!
//! Path matching is segment-exact: a rule for the `Cache` directory matches
//! the path component `cache` but not `mycache` or `cachex`, so user folders
//! with cache-like names are never read as safe. Rules run most specific
//! first.
use vstd::prelude::*;
use crate::models::CleanAdvice;
use crate::text::{
    after_last, backslashed, chars_of, ends_with, ends_with_lit, eq_lit, find_components, has_components,
    lowercase, matches_at, slashes_to_backslashes, split_after_last, starts_with, starts_with_lit,
    string_of, to_lowercase,
};

verus! {

pub const R_PAGEFILE: &'static str = "系统页面文件，运行时占用，不建议手动删除";
pub const R_SWAPFILE: &'static str = "系统交换文件，不建议手动删除";
pub const R_HIBERFIL: &'static str = "休眠文件，可用 powercfg /h off 关闭休眠来释放";
pub const R_NTUSER: &'static str = "用户注册表配置单元，删除会导致用户配置损坏";
pub const R_BOOT: &'static str = "启动引导文件，删除会导致无法开机";
pub const R_DOWNLOAD_PACKAGE: &'static str = "下载的安装包/压缩包，确认不再需要后可删";
pub const R_DOWNLOAD: &'static str = "下载目录文件，请确认后删除";
pub const R_WINDOWS_OLD: &'static str = "旧系统备份，确认不需要回退后可删";
pub const R_PATCH_CACHE: &'static str = "Installer 补丁缓存，安全可删";
pub const R_INSTALLER: &'static str = "Windows Installer 文件，删除可能影响软件卸载/修复";
pub const R_WINSXS: &'static str = "组件存储，手动删除会损坏系统，可用 DISM 清理";
pub const R_PROGRAM_FILES: &'static str = "已安装程序目录，删除会导致软件无法运行";
pub const R_SYSTEM_CORE: &'static str = "Windows 系统核心目录，不建议删除";
pub const R_RECYCLE_BIN: &'static str = "回收站内容，清空后不可恢复";
pub const R_VIDEO: &'static str = "视频文件，确认不需要后可删";
pub const R_DISK_IMAGE: &'static str = "磁盘镜像文件，确认不需要后可删";
pub const R_UNKNOWN: &'static str = "无法判断，请自行评估";

pub const R_NPM: &'static str = "npm 缓存，安全可删（下次安装会重建）";
pub const R_PIP: &'static str = "pip 缓存，安全可删（下次安装会重建）";
pub const R_CARGO: &'static str = "Cargo 注册表缓存，安全可删";
pub const R_NUGET: &'static str = "NuGet 缓存，安全可删";
pub const R_WU_DOWNLOAD: &'static str = "Windows Update 下载缓存，安全可删";
pub const R_DELIVERY: &'static str = "传递优化缓存，安全可删";
pub const R_APP_CACHE: &'static str = "浏览器/应用缓存，安全可删";
pub const R_WER: &'static str = "Windows 错误报告，安全可删";
pub const R_DUMP: &'static str = "崩溃转储文件，安全可删（删除丢失崩溃现场）";
pub const R_PREFETCH: &'static str = "预读文件，系统会自动重建";
pub const R_PANTHER: &'static str = "Windows 升级日志，安全可删";
pub const R_WINDOWS_LOG: &'static str = "Windows 日志，安全可删";
pub const R_LOG: &'static str = "日志文件，安全可删";
pub const R_THUMBNAIL: &'static str = "缩略图/图标缓存，系统会自动重建";
pub const R_TEMP: &'static str = "临时文件，安全可删";

/// `seg` is one of the `\`-delimited components of `lower`.
pub open spec fn has_seg(lower: Seq<char>, seg: Seq<char>) -> bool {
    has_components(lower, seg)
}

/// A component `child` directly follows a component `parent` in `lower`.
pub open spec fn has_seg_child(lower: Seq<char>, parent: Seq<char>, child: Seq<char>) -> bool {
    has_components(lower, parent + seq!['\\'] + child)
}

/// `lower` is `dir` itself or lies under it (`dir\...`).
pub open spec fn is_under(lower: Seq<char>, dir: Seq<char>) -> bool {
    lower == dir || starts_with(lower, dir.push('\\'))
}

/// The last `\`-delimited component of `lower` (all of it when it holds no `\`).
pub open spec fn file_name(lower: Seq<char>) -> Seq<char> {
    match after_last(lower, '\\') {
        Some(t) => t,
        None => lower,
    }
}

/// The lowercased text after the last `.` of `filename`, or empty.
pub open spec fn ext_lower(filename: Seq<char>) -> Seq<char> {
    match after_last(filename, '.') {
        Some(e) => lowercase(e),
        None => Seq::<char>::empty(),
    }
}

/// The reason under which a normalized path lies in a known-safe location.
pub open spec fn safe_reason(lower: Seq<char>, f: Seq<char>) -> Option<Seq<char>> {
    if has_seg(lower, "npm-cache"@) {
        Some(R_NPM@)
    } else if has_seg_child(lower, "pip"@, "cache"@) {
        Some(R_PIP@)
    } else if has_seg(lower, ".cargo"@) && (has_seg_child(lower, "registry"@, "cache"@)
        || has_seg_child(lower, "registry"@, "src"@)) {
        Some(R_CARGO@)
    } else if has_seg_child(lower, "nuget"@, "v3-cache"@) {
        Some(R_NUGET@)
    } else if has_seg_child(lower, "softwaredistribution"@, "download"@) {
        Some(R_WU_DOWNLOAD@)
    } else if has_seg_child(lower, "softwaredistribution"@, "deliveryoptimization"@) {
        Some(R_DELIVERY@)
    } else if has_seg(lower, "cache"@) || has_seg(lower, "code cache"@) || has_seg(
        lower,
        "gpucache"@,
    ) || has_seg(lower, "shadercache"@) || has_seg(lower, "grshadercache"@) || has_seg(
        lower,
        "dawncache"@,
    ) || has_seg(lower, "dawngraphitecache"@) || has_seg(lower, "service worker"@) || has_seg(
        lower,
        "startupcache"@,
    ) {
        Some(R_APP_CACHE@)
    } else if has_seg(lower, "wer"@) {
        Some(R_WER@)
    } else if has_seg(lower, "minidump"@) || has_seg(lower, "crashdumps"@) || has_seg(
        lower,
        "livekernelreports"@,
    ) || f == "memory.dmp"@ || ends_with(f, ".dmp"@) {
        Some(R_DUMP@)
    } else if has_seg(lower, "prefetch"@) || ends_with(f, ".pf"@) {
        Some(R_PREFETCH@)
    } else if has_seg(lower, "panther"@) {
        Some(R_PANTHER@)
    } else if has_seg_child(lower, "logs"@, "cbs"@) || has_seg_child(
        lower,
        "logs"@,
        "windowsupdate"@,
    ) {
        Some(R_WINDOWS_LOG@)
    } else if ends_with(f, ".log"@) {
        Some(R_LOG@)
    } else if starts_with(f, "thumbcache_"@) || starts_with(f, "iconcache_"@) {
        Some(R_THUMBNAIL@)
    } else if has_seg(lower, "temp"@) || has_seg(lower, "tmp"@) || ends_with(f, ".tmp"@)
        || ends_with(f, ".temp"@) {
        Some(R_TEMP@)
    } else {
        None
    }
}

/// An extension of an installer package or archive.
pub open spec fn is_package_ext(e: Seq<char>) -> bool {
    e == "exe"@ || e == "msi"@ || e == "msix"@ || e == "iso"@ || e == "zip"@ || e == "rar"@
        || e == "7z"@ || e == "pkg"@
}

/// An extension of a video file.
pub open spec fn is_video_ext(e: Seq<char>) -> bool {
    e == "mp4"@ || e == "mkv"@ || e == "avi"@ || e == "mov"@ || e == "wmv"@ || e == "flv"@
}

/// An extension of a disk image.
pub open spec fn is_image_ext(e: Seq<char>) -> bool {
    e == "iso"@ || e == "vmdk"@ || e == "vdi"@ || e == "qcow2"@
}

/// The verdict on a path that is already lowercased and uses `\` only.
pub open spec fn classify_rules(lower: Seq<char>) -> (CleanAdvice, Seq<char>) {
    let f = file_name(lower);
    if f == "pagefile.sys"@ {
        (CleanAdvice::Keep, R_PAGEFILE@)
    } else if f == "swapfile.sys"@ {
        (CleanAdvice::Keep, R_SWAPFILE@)
    } else if f == "hiberfil.sys"@ {
        (CleanAdvice::Caution, R_HIBERFIL@)
    } else if f == "ntuser.dat"@ || f == "ntuser.dat.log1"@ || f == "ntuser.dat.log2"@ {
        (CleanAdvice::Keep, R_NTUSER@)
    } else if f == "bootmgr"@ || f == "bootsect.bak"@ {
        (CleanAdvice::Keep, R_BOOT@)
    } else if safe_reason(lower, f) is Some {
        (CleanAdvice::Safe, safe_reason(lower, f)->0)
    } else if has_seg(lower, "downloads"@) {
        if is_package_ext(ext_lower(f)) {
            (CleanAdvice::Caution, R_DOWNLOAD_PACKAGE@)
        } else {
            (CleanAdvice::Caution, R_DOWNLOAD@)
        }
    } else if is_under(lower, "c:\\windows.old"@) {
        (CleanAdvice::Safe, R_WINDOWS_OLD@)
    } else if is_under(lower, "c:\\windows\\installer"@) {
        if has_seg(lower, "$patchcache$"@) {
            (CleanAdvice::Safe, R_PATCH_CACHE@)
        } else {
            (CleanAdvice::Caution, R_INSTALLER@)
        }
    } else if has_seg(lower, "winsxs"@) {
        (CleanAdvice::Keep, R_WINSXS@)
    } else if is_under(lower, "c:\\program files"@) || is_under(lower, "c:\\program files (x86)"@) {
        (CleanAdvice::Keep, R_PROGRAM_FILES@)
    } else if is_under(lower, "c:\\windows\\system32"@) || is_under(lower, "c:\\windows\\syswow64"@) {
        (CleanAdvice::Keep, R_SYSTEM_CORE@)
    } else if is_under(lower, "c:\\$recycle.bin"@) {
        (CleanAdvice::Safe, R_RECYCLE_BIN@)
    } else if is_video_ext(ext_lower(f)) {
        (CleanAdvice::Caution, R_VIDEO@)
    } else if is_image_ext(ext_lower(f)) {
        (CleanAdvice::Caution, R_DISK_IMAGE@)
    } else {
        (CleanAdvice::Unknown, R_UNKNOWN@)
    }
}

/// The normalized form the rules read: lowercased, with `/` folded to `\`.
pub open spec fn normalize(path: Seq<char>) -> Seq<char> {
    slashes_to_backslashes(lowercase(path))
}

/// The verdict on any path.
pub open spec fn spec_classify(path: Seq<char>) -> (CleanAdvice, Seq<char>) {
    classify_rules(normalize(path))
}

/// Whether `seg` is one of the `\`-delimited components of `lower`.
fn seg(lower: &Vec<char>, name: &str) -> (r: bool)
    ensures
        r == has_seg(lower@, name@),
{
    let p = chars_of(name);
    find_components(lower, &p)
}

/// Whether a component `child` directly follows a component `parent`.
fn seg_child(lower: &Vec<char>, parent: &str, child: &str) -> (r: bool)
    ensures
        r == has_seg_child(lower@, parent@, child@),
{
    let mut p = chars_of(parent);
    let c = chars_of(child);
    p.push('\\');
    let mut i: usize = 0;
    let ghost base = p@;
    while i < c.len()
        invariant
            i <= c.len(),
            p@ == base + c@.subrange(0, i as int),
        decreases c.len() - i,
    {
        p.push(c[i]);
        i = i + 1;
        assert(p@ =~= base + c@.subrange(0, i as int));
    }
    assert(p@ =~= parent@ + seq!['\\'] + child@);
    find_components(lower, &p)
}

/// Whether `lower` is `dir` or lies under it.
fn under(lower: &Vec<char>, dir: &str) -> (r: bool)
    ensures
        r == is_under(lower@, dir@),
{
    if eq_lit(lower, dir) {
        return true;
    }
    let mut p = chars_of(dir);
    p.push('\\');
    if p.len() > lower.len() {
        return false;
    }
    matches_at(lower, 0, &p)
}

/// The lowercased extension of `filename`.
fn extension(filename: &Vec<char>) -> (r: Vec<char>)
    ensures
        r@ == ext_lower(filename@),
{
    match split_after_last(filename, '.') {
        Some(e) => {
            let s = string_of(&e);
            let l = to_lowercase(s.as_str());
            chars_of(l.as_str())
        },
        None => Vec::new(),
    }
}

fn any_lit(v: &Vec<char>, a: &str, b: &str) -> (r: bool)
    ensures
        r == (v@ == a@ || v@ == b@),
{
    eq_lit(v, a) || eq_lit(v, b)
}

fn verdict(advice: CleanAdvice, reason: &str) -> (r: (CleanAdvice, String))
    ensures
        r.0 == advice,
        r.1@ == reason@,
{
    (advice, reason.to_owned())
}

fn safe_reason_of(lower: &Vec<char>, f: &Vec<char>) -> (r: Option<&'static str>)
    ensures
        match r {
            Some(s) => safe_reason(lower@, f@) == Some(s@),
            None => safe_reason(lower@, f@) is None,
        },
{
    if seg(lower, "npm-cache") {
        return Some(R_NPM);
    }
    if seg_child(lower, "pip", "cache") {
        return Some(R_PIP);
    }
    if seg(lower, ".cargo") && (seg_child(lower, "registry", "cache") || seg_child(
        lower,
        "registry",
        "src",
    )) {
        return Some(R_CARGO);
    }
    if seg_child(lower, "nuget", "v3-cache") {
        return Some(R_NUGET);
    }
    if seg_child(lower, "softwaredistribution", "download") {
        return Some(R_WU_DOWNLOAD);
    }
    if seg_child(lower, "softwaredistribution", "deliveryoptimization") {
        return Some(R_DELIVERY);
    }
    if seg(lower, "cache") || seg(lower, "code cache") || seg(lower, "gpucache") || seg(
        lower,
        "shadercache",
    ) || seg(lower, "grshadercache") || seg(lower, "dawncache") || seg(
        lower,
        "dawngraphitecache",
    ) || seg(lower, "service worker") || seg(lower, "startupcache") {
        return Some(R_APP_CACHE);
    }
    if seg(lower, "wer") {
        return Some(R_WER);
    }
    if seg(lower, "minidump") || seg(lower, "crashdumps") || seg(lower, "livekernelreports")
        || eq_lit(f, "memory.dmp") || ends_with_lit(f, ".dmp") {
        return Some(R_DUMP);
    }
    if seg(lower, "prefetch") || ends_with_lit(f, ".pf") {
        return Some(R_PREFETCH);
    }
    if seg(lower, "panther") {
        return Some(R_PANTHER);
    }
    if seg_child(lower, "logs", "cbs") || seg_child(lower, "logs", "windowsupdate") {
        return Some(R_WINDOWS_LOG);
    }
    if ends_with_lit(f, ".log") {
        return Some(R_LOG);
    }
    if starts_with_lit(f, "thumbcache_") || starts_with_lit(f, "iconcache_") {
        return Some(R_THUMBNAIL);
    }
    if seg(lower, "temp") || seg(lower, "tmp") || ends_with_lit(f, ".tmp") || ends_with_lit(
        f,
        ".temp",
    ) {
        return Some(R_TEMP);
    }
    None
}

/// Classify a path whose letters `str::to_lowercase` has already lowered:
/// folds `/` to `\` and applies the rules.
pub fn classify_lowered(lowered: &str) -> (r: (CleanAdvice, String))
    ensures
        (r.0, r.1@) == classify_rules(slashes_to_backslashes(lowered@)),
{
    let lower = backslashed(lowered);
    let f = match split_after_last(&lower, '\\') {
        Some(t) => t,
        None => lower.clone(),
    };
    assert(f@ == file_name(lower@));
    if eq_lit(&f, "pagefile.sys") {
        return verdict(CleanAdvice::Keep, R_PAGEFILE);
    }
    if eq_lit(&f, "swapfile.sys") {
        return verdict(CleanAdvice::Keep, R_SWAPFILE);
    }
    if eq_lit(&f, "hiberfil.sys") {
        return verdict(CleanAdvice::Caution, R_HIBERFIL);
    }
    if eq_lit(&f, "ntuser.dat") || any_lit(&f, "ntuser.dat.log1", "ntuser.dat.log2") {
        return verdict(CleanAdvice::Keep, R_NTUSER);
    }
    if any_lit(&f, "bootmgr", "bootsect.bak") {
        return verdict(CleanAdvice::Keep, R_BOOT);
    }
    if let Some(reason) = safe_reason_of(&lower, &f) {
        return verdict(CleanAdvice::Safe, reason);
    }
    if seg(&lower, "downloads") {
        let e = extension(&f);
        if any_lit(&e, "exe", "msi") || any_lit(&e, "msix", "iso") || any_lit(&e, "zip", "rar")
            || any_lit(&e, "7z", "pkg") {
            return verdict(CleanAdvice::Caution, R_DOWNLOAD_PACKAGE);
        }
        return verdict(CleanAdvice::Caution, R_DOWNLOAD);
    }
    if under(&lower, "c:\\windows.old") {
        return verdict(CleanAdvice::Safe, R_WINDOWS_OLD);
    }
    if under(&lower, "c:\\windows\\installer") {
        if seg(&lower, "$patchcache$") {
            return verdict(CleanAdvice::Safe, R_PATCH_CACHE);
        }
        return verdict(CleanAdvice::Caution, R_INSTALLER);
    }
    if seg(&lower, "winsxs") {
        return verdict(CleanAdvice::Keep, R_WINSXS);
    }
    if under(&lower, "c:\\program files") || under(&lower, "c:\\program files (x86)") {
        return verdict(CleanAdvice::Keep, R_PROGRAM_FILES);
    }
    if under(&lower, "c:\\windows\\system32") || under(&lower, "c:\\windows\\syswow64") {
        return verdict(CleanAdvice::Keep, R_SYSTEM_CORE);
    }
    if under(&lower, "c:\\$recycle.bin") {
        return verdict(CleanAdvice::Safe, R_RECYCLE_BIN);
    }
    let e = extension(&f);
    if any_lit(&e, "mp4", "mkv") || any_lit(&e, "avi", "mov") || any_lit(&e, "wmv", "flv") {
        return verdict(CleanAdvice::Caution, R_VIDEO);
    }
    if any_lit(&e, "iso", "vmdk") || any_lit(&e, "vdi", "qcow2") {
        return verdict(CleanAdvice::Caution, R_DISK_IMAGE);
    }
    verdict(CleanAdvice::Unknown, R_UNKNOWN)
}

/// Classify a file or directory path into a cleanability level with a short
/// human-readable reason. The path is lowercased and `/` is folded to `\`
/// before the rules apply.
pub fn classify(path: &str) -> (r: (CleanAdvice, String))
    ensures
        (r.0, r.1@) == spec_classify(path@),
{
    let lowered = to_lowercase(path);
    classify_lowered(lowered.as_str())
}


/// A system-critical file name: the page, swap and hibernation files, the
/// user registry hive and its logs, the boot files.
pub open spec fn is_critical_name(f: Seq<char>) -> bool {
    f == "pagefile.sys"@ || f == "swapfile.sys"@ || f == "hiberfil.sys"@ || f == "ntuser.dat"@
        || f == "ntuser.dat.log1"@ || f == "ntuser.dat.log2"@ || f == "bootmgr"@ || f
        == "bootsect.bak"@
}

/// System-critical files are never classified `Safe`, wherever they lie:
/// the hibernation file is `Caution`, the others `Keep`.
pub proof fn lemma_critical_files_never_safe(path: Seq<char>)
    requires
        is_critical_name(file_name(normalize(path))),
    ensures
        spec_classify(path).0 == (if file_name(normalize(path)) == "hiberfil.sys"@ {
            CleanAdvice::Caution
        } else {
            CleanAdvice::Keep
        }),
{
    reveal_strlit("pagefile.sys");
    reveal_strlit("swapfile.sys");
    reveal_strlit("hiberfil.sys");
    reveal_strlit("ntuser.dat");
    reveal_strlit("ntuser.dat.log1");
    reveal_strlit("ntuser.dat.log2");
    reveal_strlit("bootmgr");
    reveal_strlit("bootsect.bak");
    let f = file_name(normalize(path));
    assert(f.len() > 0 && (f[0] == 'p' || f[0] == 's' || f[0] == 'h' || f[0] == 'n' || f[0] == 'b'));
    assert(f == "pagefile.sys"@ ==> f[0] == 'p');
    assert(f == "swapfile.sys"@ ==> f[0] == 's');
    assert(f == "hiberfil.sys"@ ==> f[0] == 'h');
}

/// Known-safe locations win over every broader rule: a path that is not a
/// critical file and matches a known-safe location is `Safe` with that
/// location's reason, even inside Program Files or the system directories.
pub proof fn lemma_safe_location_wins(path: Seq<char>)
    requires
        !is_critical_name(file_name(normalize(path))),
        safe_reason(normalize(path), file_name(normalize(path))) is Some,
    ensures
        spec_classify(path) == (
            CleanAdvice::Safe,
            safe_reason(normalize(path), file_name(normalize(path)))->0,
        ),
{
}

/// A path is classified `Safe` only in a known-safe location, under
/// `C:\Windows.old`, in the Installer patch cache, or in the recycle bin.
pub proof fn lemma_safe_only_in_known_places(path: Seq<char>)
    ensures
        spec_classify(path).0 == CleanAdvice::Safe ==> {
            let l = normalize(path);
            ||| safe_reason(l, file_name(l)) is Some
            ||| is_under(l, "c:\\windows.old"@)
            ||| (is_under(l, "c:\\windows\\installer"@) && has_seg(l, "$patchcache$"@))
            ||| is_under(l, "c:\\$recycle.bin"@)
        },
{
}

/// A path under `dir` agrees with `dir` on its first characters.
proof fn lemma_under_prefix(l: Seq<char>, dir: Seq<char>, i: int)
    requires
        is_under(l, dir),
        0 <= i < dir.len(),
    ensures
        i < l.len() && l[i] == dir[i],
{
    if l != dir {
        assert(dir.push('\\')[i] == dir[i]);
    }
}

/// Outside the known-safe locations, nothing under Program Files or the
/// system directories (System32, SysWOW64) is `Safe`.
pub proof fn lemma_system_dirs_not_safe(path: Seq<char>)
    requires
        ({
            let l = normalize(path);
            &&& safe_reason(l, file_name(l)) is None
            &&& (is_under(l, "c:\\program files"@) || is_under(l, "c:\\program files (x86)"@)
                || is_under(l, "c:\\windows\\system32"@) || is_under(l, "c:\\windows\\syswow64"@))
        }),
    ensures
        spec_classify(path).0 != CleanAdvice::Safe,
{
    let l = normalize(path);
    reveal_strlit("c:\\program files");
    reveal_strlit("c:\\program files (x86)");
    reveal_strlit("c:\\windows\\system32");
    reveal_strlit("c:\\windows\\syswow64");
    reveal_strlit("c:\\windows.old");
    reveal_strlit("c:\\windows\\installer");
    reveal_strlit("c:\\$recycle.bin");
    if is_under(l, "c:\\program files"@) {
        lemma_under_prefix(l, "c:\\program files"@, 3);
        lemma_under_prefix(l, "c:\\program files"@, 9);
    } else if is_under(l, "c:\\program files (x86)"@) {
        lemma_under_prefix(l, "c:\\program files (x86)"@, 3);
        lemma_under_prefix(l, "c:\\program files (x86)"@, 9);
    } else if is_under(l, "c:\\windows\\system32"@) {
        lemma_under_prefix(l, "c:\\windows\\system32"@, 3);
        lemma_under_prefix(l, "c:\\windows\\system32"@, 10);
        lemma_under_prefix(l, "c:\\windows\\system32"@, 11);
    } else {
        lemma_under_prefix(l, "c:\\windows\\syswow64"@, 3);
        lemma_under_prefix(l, "c:\\windows\\syswow64"@, 10);
        lemma_under_prefix(l, "c:\\windows\\syswow64"@, 11);
    }
    if is_under(l, "c:\\windows.old"@) {
        lemma_under_prefix(l, "c:\\windows.old"@, 3);
        lemma_under_prefix(l, "c:\\windows.old"@, 10);
    }
    if is_under(l, "c:\\windows\\installer"@) {
        lemma_under_prefix(l, "c:\\windows\\installer"@, 3);
        lemma_under_prefix(l, "c:\\windows\\installer"@, 11);
    }
    if is_under(l, "c:\\$recycle.bin"@) {
        lemma_under_prefix(l, "c:\\$recycle.bin"@, 3);
    }
}

/// The directory names of browser and application caches.
pub open spec fn is_app_cache_dir(c: Seq<char>) -> bool {
    c == "cache"@ || c == "code cache"@ || c == "gpucache"@ || c == "shadercache"@ || c
        == "grshadercache"@ || c == "dawncache"@ || c == "dawngraphitecache"@ || c
        == "service worker"@ || c == "startupcache"@
}

/// A path with a browser or application cache directory among its
/// components (any case) that is not a critical file is `Safe`; unless a
/// more specific known-safe location (package manager caches, Windows
/// Update downloads, delivery optimization) names it first, the reason is
/// the application-cache one.
pub proof fn lemma_app_caches_safe(path: Seq<char>, c: Seq<char>)
    requires
        is_app_cache_dir(c),
        has_seg(normalize(path), c),
        !is_critical_name(file_name(normalize(path))),
    ensures
        spec_classify(path).0 == CleanAdvice::Safe,
        ({
            let l = normalize(path);
            !has_seg(l, "npm-cache"@) && !has_seg_child(l, "pip"@, "cache"@) && !has_seg(l, ".cargo"@)
                && !has_seg_child(l, "nuget"@, "v3-cache"@) && !has_seg_child(
                l,
                "softwaredistribution"@,
                "download"@,
            ) && !has_seg_child(l, "softwaredistribution"@, "deliveryoptimization"@)
        }) ==> spec_classify(path).1 == R_APP_CACHE@,
{
}

} // verus!
