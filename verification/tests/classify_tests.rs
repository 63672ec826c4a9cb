use disk_clear_tool::classify::classify;
use disk_clear_tool::models::CleanAdvice;

#[test]
fn system_files_are_keep() {
    let (a, _) = classify(r"C:\pagefile.sys");
    assert_eq!(a, CleanAdvice::Keep);
    let (a, _) = classify(r"C:\Windows\System32\drivers\etc\hosts");
    // hosts is in system32 -> keep
    assert_eq!(a, CleanAdvice::Keep);
}

#[test]
fn hibernation_is_caution() {
    let (a, r) = classify(r"C:\hiberfil.sys");
    assert_eq!(a, CleanAdvice::Caution);
    assert!(r.contains("powercfg"));
}

#[test]
fn temp_files_are_safe() {
    let (a, _) = classify(r"C:\Users\test\AppData\Local\Temp\foo.tmp");
    assert_eq!(a, CleanAdvice::Safe);
    let (a, _) = classify(r"C:\Windows\Temp\setup.log");
    assert_eq!(a, CleanAdvice::Safe);
}

#[test]
fn browser_cache_is_safe() {
    let (a, r) = classify(r"C:\Users\test\AppData\Local\Google\Chrome\User Data\Default\Cache\data_0");
    assert_eq!(a, CleanAdvice::Safe);
    assert!(r.contains("缓存"));
}

#[test]
fn program_files_are_keep() {
    let (a, _) = classify(r"C:\Program Files\Google\Chrome\chrome.exe");
    assert_eq!(a, CleanAdvice::Keep);
    let (a, _) = classify(r"C:\Program Files (x86)\Steam\steam.exe");
    assert_eq!(a, CleanAdvice::Keep);
}

#[test]
fn downloads_installers_are_caution() {
    let (a, r) = classify(r"C:\Users\test\Downloads\setup.exe");
    assert_eq!(a, CleanAdvice::Caution);
    assert!(r.contains("安装包"));
}

#[test]
fn windows_old_is_safe() {
    let (a, _) = classify(r"C:\Windows.old\Windows\System32\kernel32.dll");
    assert_eq!(a, CleanAdvice::Safe);
}

#[test]
fn winsxs_is_keep() {
    let (a, _) = classify(r"C:\Windows\WinSxS\amd64_microsoft-windows-something");
    assert_eq!(a, CleanAdvice::Keep);
}

#[test]
fn dmp_files_are_safe() {
    let (a, r) = classify(r"C:\Windows\Minidump\mini.dmp");
    assert_eq!(a, CleanAdvice::Safe);
    assert!(r.contains("转储"));
}

#[test]
fn recycle_bin_is_safe() {
    let (a, _) = classify(r"C:\$Recycle.Bin\S-1-5-21\$R12345");
    assert_eq!(a, CleanAdvice::Safe);
}

#[test]
fn unknown_file_is_unknown() {
    let (a, _) = classify(r"C:\Users\test\Documents\report.docx");
    assert_eq!(a, CleanAdvice::Unknown);
}

#[test]
fn installer_patch_cache_is_safe() {
    let (a, _) = classify(r"C:\Windows\Installer\$PatchCache$\MSP\abc.msp");
    assert_eq!(a, CleanAdvice::Safe);
}

#[test]
fn installer_base_is_caution() {
    let (a, _) = classify(r"C:\Windows\Installer\abc123.msi");
    assert_eq!(a, CleanAdvice::Caution);
}

#[test]
fn video_files_are_caution() {
    let (a, _) = classify(r"C:\Users\test\Videos\movie.mp4");
    assert_eq!(a, CleanAdvice::Caution);
}

#[test]
fn npm_cache_is_safe() {
    let (a, r) = classify(r"C:\Users\test\AppData\Local\npm-cache\_cacache\tmp\tmp.tar");
    assert_eq!(a, CleanAdvice::Safe);
    assert!(r.contains("npm"));
}

#[test]
fn mycache_substring_is_not_safe() {
    // Segment is "mycache", not "cache".
    let (a, _) = classify(r"C:\Users\test\Documents\MyCache\report.docx");
    assert_ne!(a, CleanAdvice::Safe);
}

#[test]
fn mytemp_substring_is_not_safe() {
    // Segment is "mytemp", not "temp".
    let (a, _) = classify(r"C:\Users\test\Documents\MyTemp\notes.txt");
    assert_ne!(a, CleanAdvice::Safe);
}

#[test]
fn windows_old_backup_is_not_safe() {
    // "windows.oldbackup" must not match the "c:\windows.old" rule.
    let (a, _) = classify(r"C:\Windows.oldbackup\foo.dll");
    assert_ne!(a, CleanAdvice::Safe);
}

#[test]
fn windows_installer_variant_is_not_caution() {
    // "installer-backup" is a different segment than "installer".
    let (a, _) = classify(r"C:\Windows\installer-backup\thing.msi");
    assert_ne!(a, CleanAdvice::Caution);
}

#[test]
fn recycle_bin_variant_is_not_safe() {
    // "$recycle.bin.bak" must not match "c:\$recycle.bin".
    let (a, _) = classify(r"C:\$Recycle.Bin.bak\foo");
    assert_ne!(a, CleanAdvice::Safe);
}

#[test]
fn crashdumps_prefix_dir_is_not_safe() {
    // "crashdumps-archive" is not the "crashdumps" segment.
    let (a, _) = classify(r"C:\Users\test\AppData\Local\CrashDumps-Archive\report.txt");
    assert_ne!(a, CleanAdvice::Safe);
}

#[test]
fn softwaredistribution_downloads_plural_is_not_safe() {
    // Canonical cache is ...\Download (singular); plural must not match.
    let (a, _) = classify(r"C:\Windows\SoftwareDistribution\Downloads\foo.exe");
    assert_ne!(a, CleanAdvice::Safe);
}

#[test]
fn exact_cache_segment_still_safe() {
    // Positive control: a real "Cache" segment still classifies Safe.
    let (a, _) = classify(r"C:\Users\test\AppData\Local\Google\Chrome\User Data\Default\Cache\data_1");
    assert_eq!(a, CleanAdvice::Safe);
}

// ---- further cases ----

#[test]
fn critical_file_inside_cache_dir_is_still_keep() {
    let (a, _) = classify(r"D:\Somewhere\Cache\pagefile.sys");
    assert_eq!(a, CleanAdvice::Keep);
    let (a, _) = classify(r"C:\Users\test\AppData\Local\Temp\NTUSER.DAT");
    assert_eq!(a, CleanAdvice::Keep);
    let (a, _) = classify(r"C:\Temp\hiberfil.sys");
    assert_eq!(a, CleanAdvice::Caution);
    let (a, r) = classify(r"C:\bootmgr");
    assert_eq!(a, CleanAdvice::Keep);
    assert_eq!(r, "启动引导文件，删除会导致无法开机");
}

#[test]
fn safe_location_wins_inside_program_files() {
    let (a, _) = classify(r"C:\Program Files\App\Cache\blob");
    assert_eq!(a, CleanAdvice::Safe);
    let (a, _) = classify(r"C:\Windows\System32\LogFiles\trace.log");
    assert_eq!(a, CleanAdvice::Safe);
}

#[test]
fn forward_slashes_and_case_are_normalized() {
    let (a, _) = classify("c:/program files/app/app.exe");
    assert_eq!(a, CleanAdvice::Keep);
    let (a, _) = classify("C:/USERS/X/APPDATA/LOCAL/TEMP/A.BIN");
    assert_eq!(a, CleanAdvice::Safe);
}

#[test]
fn downloads_non_package_is_caution_with_reason() {
    let (a, r) = classify(r"C:\Users\test\Downloads\notes.txt");
    assert_eq!(a, CleanAdvice::Caution);
    assert_eq!(r, "下载目录文件，请确认后删除");
}

#[test]
fn disk_images_are_caution_and_reasons_are_exact() {
    let (a, r) = classify(r"D:\vm\disk.vmdk");
    assert_eq!(a, CleanAdvice::Caution);
    assert_eq!(r, "磁盘镜像文件，确认不需要后可删");
    let (a, r) = classify(r"C:\Users\test\Documents\report.docx");
    assert_eq!(a, CleanAdvice::Unknown);
    assert_eq!(r, "无法判断，请自行评估");
}

#[test]
fn dev_caches_get_their_own_reasons() {
    let (a, r) = classify(r"C:\Users\u\AppData\Local\pip\Cache\http\x");
    assert_eq!(a, CleanAdvice::Safe);
    assert!(r.contains("pip"));
    let (a, r) = classify(r"C:\Users\u\.cargo\registry\src\index\crate\lib.rs");
    assert_eq!(a, CleanAdvice::Safe);
    assert!(r.contains("Cargo"));
    let (a, r) = classify(r"C:\Users\u\AppData\Local\NuGet\v3-cache\pkg");
    assert_eq!(a, CleanAdvice::Safe);
    assert!(r.contains("NuGet"));
}
