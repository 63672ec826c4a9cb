use disk_clear_tool::cli::{category_from_name, category_name, parse_headless};
use disk_clear_tool::delete::{DeleteRun, DeleteStep, RemoveOutcome};
use disk_clear_tool::models::{CleanCategory, ScheduleConfig, ScheduleFrequency};
use disk_clear_tool::schedule::{run_today, run_tomorrow, schedule_time, wait_secs, weekly_run};
use disk_clear_tool::tasks::{
    autostart_command, autostart_disable_args, autostart_enable_args, autostart_enabled_message,
    autostart_disabled_message, autostart_query_args, command_outcome, headless_command, register_args, register_message, start_time, unregister_args,
    unregister_message,
};

/// Runs a deletion where every safe path removes `size` bytes, or fails
/// with "not found" when `size` is `None`.
fn run(paths: Vec<String>, sizes: Vec<Option<u64>>) -> (disk_clear_tool::models::DeleteResult, Vec<(u64, u64, u64)>) {
    let mut run = DeleteRun::new(paths);
    let mut progress = Vec::new();
    let mut k = 0;
    loop {
        match run.next_step() {
            DeleteStep::Finished => break,
            DeleteStep::Rejected => {},
            DeleteStep::Remove(_) => {
                match sizes[k] {
                    Some(s) => run.report(RemoveOutcome::Removed(s)),
                    None => run.report(RemoveOutcome::Failed("not found".to_string())),
                }
                k += 1;
            },
        }
        progress.push(run.progress());
    }
    (run.finish(), progress)
}

#[test]
fn non_safe_path_is_rejected() {
    let path = r"C:\Program Files\fakeapp\app.exe".to_string();
    let (result, _) = run(vec![path], vec![]);
    assert_eq!(result.deleted_count, 0);
    assert_eq!(result.freed_bytes, 0);
    assert_eq!(result.errors.len(), 1);
    assert!(result.errors[0].contains("拒绝删除"));
}

#[test]
fn delete_safe_file_succeeds() {
    let (result, progress) = run(vec![r"C:\t\Cache\blob.bin".to_string()], vec![Some(1024)]);
    assert_eq!(result.deleted_count, 1);
    assert_eq!(result.freed_bytes, 1024);
    assert!(result.errors.is_empty());
    assert_eq!(progress, vec![(1, 1, 1024)]);
}

#[test]
fn missing_safe_file_goes_to_errors() {
    let (result, _) = run(vec![r"C:\t\Cache\nope.bin".to_string()], vec![None]);
    assert_eq!(result.deleted_count, 0);
    assert_eq!(result.errors.len(), 1);
    assert!(!result.errors[0].contains("拒绝删除"));
    assert_eq!(result.errors[0], r"C:\t\Cache\nope.bin: not found");
}

#[test]
fn mixed_safe_and_non_safe() {
    let (result, progress) = run(
        vec![r"C:\t\Cache\blob.bin".to_string(), r"C:\Program Files\fakeapp\app.exe".to_string()],
        vec![Some(512)],
    );
    assert_eq!(result.deleted_count, 1);
    assert_eq!(result.freed_bytes, 512);
    assert_eq!(result.errors.len(), 1);
    assert!(result.errors[0].contains("拒绝删除"));
    assert_eq!(result.errors[0], r"拒绝删除(非安全类): C:\Program Files\fakeapp\app.exe");
    assert_eq!(progress, vec![(1, 2, 512), (1, 2, 512)]);
}

fn args(v: &[&str]) -> Vec<String> {
    v.iter().map(|s| s.to_string()).collect()
}

#[test]
fn headless_arguments() {
    assert_eq!(parse_headless(&args(&[])), None);
    assert_eq!(parse_headless(&args(&["--other"])), None);
    assert_eq!(
        parse_headless(&args(&["--headless-clean"])),
        Some(vec![CleanCategory::WindowsTemp, CleanCategory::BrowserCache, CleanCategory::WindowsUpdate])
    );
    assert_eq!(
        parse_headless(&args(&["--headless-clean", "Prefetch", "bogus", "DevCaches", "Prefetch"])),
        Some(vec![CleanCategory::Prefetch, CleanCategory::DevCaches, CleanCategory::Prefetch])
    );
    assert_eq!(parse_headless(&args(&["--headless-clean", "prefetch"])).unwrap().len(), 3);
    assert_eq!(category_from_name("RecycleBin"), Some(CleanCategory::RecycleBin));
    assert_eq!(category_name(CleanCategory::DeliveryOptimization), "DeliveryOptimization");
}

#[test]
fn headless_command_round_trips() {
    let cats = vec![CleanCategory::Thumbnails, CleanCategory::MemoryDumps];
    let cmd = headless_command(r"C:\app\tool.exe", &cats);
    assert_eq!(cmd, r#""C:\app\tool.exe" --headless-clean Thumbnails MemoryDumps"#);
    let words: Vec<String> = cmd.split(' ').skip(1).map(|s| s.to_string()).collect();
    assert_eq!(parse_headless(&words), Some(cats));
}

#[test]
fn schtasks_arguments_and_messages() {
    let cfg = ScheduleConfig {
        enabled: true,
        frequency: ScheduleFrequency::Weekly,
        hour: 30,
        minute: 5,
        categories: vec![CleanCategory::WindowsTemp],
    };
    assert_eq!(start_time(30, 5), "23:05");
    let a = register_args(&cfg, r"C:\x.exe");
    assert_eq!(
        a,
        args(&[
            "/Create",
            "/F",
            "/SC",
            "WEEKLY",
            "/TN",
            "DiskClearTool_AutoClean",
            "/TR",
            r#""C:\x.exe" --headless-clean WindowsTemp"#,
            "/ST",
            "23:05",
            "/RL",
            "HIGHEST"
        ])
    );
    assert_eq!(register_message(&cfg), "已注册系统计划任务 \"DiskClearTool_AutoClean\"，将在每周于 23:05 执行");
    assert_eq!(unregister_args(), args(&["/Delete", "/F", "/TN", "DiskClearTool_AutoClean"]));
    assert_eq!(unregister_message(), "已移除系统计划任务 \"DiskClearTool_AutoClean\"");
}

#[test]
fn autostart_commands() {
    assert_eq!(autostart_command(r"C:\a.exe", false), r#""C:\a.exe""#);
    assert_eq!(
        autostart_command(r"C:\a.exe", true),
        r#""C:\a.exe" --headless-clean WindowsTemp BrowserCache WindowsUpdate"#
    );
    let key = r"HKCU\Software\Microsoft\Windows\CurrentVersion\Run";
    assert_eq!(
        autostart_enable_args(r"C:\a.exe", false),
        args(&["add", key, "/v", "DiskClearTool", "/t", "REG_SZ", "/d", r#""C:\a.exe""#, "/f"])
    );
    assert_eq!(autostart_disable_args(), args(&["delete", key, "/v", "DiskClearTool", "/f"]));
    assert_eq!(autostart_query_args(), args(&["query", key, "/v", "DiskClearTool"]));
    assert_eq!(autostart_enabled_message(true), "已启用开机自启（静默清理模式）");
}

#[test]
fn schedule_waits() {
    assert_eq!(schedule_time(24, 75), (23, 59));
    assert_eq!(schedule_time(3, 0), (3, 0));
    assert_eq!(wait_secs((1000, 0), (0, 0)), 1000);
    assert_eq!(wait_secs((1000, 0), (990, 0)), 60);
    assert_eq!(wait_secs((0, 0), (100, 0)), 60);
    assert_eq!(wait_secs((200, 100), (100, 500)), 99);
    assert_eq!(wait_secs((200, 500), (100, 100)), 100);
}

#[test]
fn command_outcomes() {
    assert_eq!(command_outcome(true, "done".to_string(), "schtasks 失败: ", "ignored"), Ok("done".to_string()));
    assert_eq!(
        command_outcome(false, "done".to_string(), "reg add 失败: ", "access denied"),
        Err("reg add 失败: access denied".to_string())
    );
    assert_eq!(autostart_disabled_message(), "已取消开机自启");
}

#[test]
fn schedule_days() {
    use_schedule_days();
}

fn use_schedule_days() {
    let day = 86400i64;
    // The set time today is still ahead: today.
    assert_eq!(run_today((100, 0), Some((200, 0))), Some((200, 0)));
    // Already past, equal, or not a valid local time: tomorrow.
    assert_eq!(run_today((300, 0), Some((200, 0))), None);
    assert_eq!(run_today((200, 0), Some((200, 0))), None);
    assert_eq!(run_today((100, 0), None), None);
    assert_eq!(run_tomorrow((100, 5), Some((90000, 0))), (90000, 0));
    assert_eq!(run_tomorrow((100, 5), None), (100 + day, 5));
    // Weekly: moved on to today's weekday, or a week later when not ahead.
    assert_eq!(weekly_run((1000, 0), 3, (500, 0)), (1000 + 3 * day, 0));
    assert_eq!(weekly_run((1000, 0), 0, (1000, 0)), (1000 + 7 * day, 0));
}
