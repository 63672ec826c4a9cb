//! The command lines handed to `schtasks` (system scheduled task) and to
//! `reg` (start with the user session), and the messages shown for them.
use vstd::prelude::*;
use crate::cli::{category_name, category_names, default_categories, spec_category_name, HEADLESS_FLAG};
use crate::models::{CleanCategory, ScheduleConfig, ScheduleFrequency};
use crate::text::chars_of;

verus! {

/// Name of the system scheduled task.
pub const TASK_NAME: &'static str = "DiskClearTool_AutoClean";
/// Registry key holding per-user start-up commands.
pub const RUN_KEY_PATH: &'static str = "HKCU\\Software\\Microsoft\\Windows\\CurrentVersion\\Run";
/// Registry value naming this tool under that key.
pub const RUN_VALUE_NAME: &'static str = "DiskClearTool";

/// `list` joined with `sep` between items.
pub open spec fn join(list: Seq<Seq<char>>, sep: Seq<char>) -> Seq<char>
    decreases list.len(),
{
    if list.len() == 0 {
        Seq::<char>::empty()
    } else if list.len() == 1 {
        list[0]
    } else {
        join(list.drop_last(), sep) + sep + list.last()
    }
}

/// The two decimal digits of `n < 100`.
pub open spec fn two_digits(n: u32) -> Seq<char> {
    seq!["0123456789"@[(n / 10) as int], "0123456789"@[(n % 10) as int]]
}

/// `min(hour, 23)` and `min(minute, 59)` as `HH:MM`.
pub open spec fn spec_start_time(hour: u32, minute: u32) -> Seq<char> {
    two_digits(if hour < 23 { hour } else { 23 }) + ":"@ + two_digits(if minute < 59 { minute } else { 59 })
}

/// The `schtasks` schedule word of a frequency.
pub open spec fn spec_schedule_word(f: ScheduleFrequency) -> Seq<char> {
    match f {
        ScheduleFrequency::Daily => "DAILY"@,
        ScheduleFrequency::Weekly => "WEEKLY"@,
    }
}

/// The command that runs `exe` headless on `cats`:
/// `"exe" --headless-clean A B C`.
pub open spec fn spec_headless_command(exe: Seq<char>, cats: Seq<CleanCategory>) -> Seq<char> {
    "\""@ + exe + "\" "@ + HEADLESS_FLAG@ + " "@ + join(category_names(cats), " "@)
}

fn push_str(s: &mut String, t: &str)
    ensures
        final(s)@ == old(s)@ + t@,
{
    s.append(t);
}

/// The two decimal digits of `n`.
pub fn two_digit_string(n: u32) -> (r: String)
    requires
        n < 100,
    ensures
        r@ == two_digits(n),
{
    proof {
        reveal_strlit("0123456789");
    }
    let digits = chars_of("0123456789");
    let mut s = String::new();
    s.push(digits[(n / 10) as usize]);
    s.push(digits[(n % 10) as usize]);
    assert(s@ =~= two_digits(n));
    s
}

/// The start time of the scheduled task, `HH:MM`, clamped to a valid time.
pub fn start_time(hour: u32, minute: u32) -> (r: String)
    ensures
        r@ == spec_start_time(hour, minute),
{
    let h = if hour < 23 { hour } else { 23 };
    let m = if minute < 59 { minute } else { 59 };
    let mut s = two_digit_string(h);
    push_str(&mut s, ":");
    let t = two_digit_string(m);
    push_str(&mut s, t.as_str());
    s
}

/// The `schtasks` schedule word of a frequency.
pub fn schedule_word(f: ScheduleFrequency) -> (r: &'static str)
    ensures
        r@ == spec_schedule_word(f),
{
    match f {
        ScheduleFrequency::Daily => "DAILY",
        ScheduleFrequency::Weekly => "WEEKLY",
    }
}

/// The command that runs `exe` headless on `cats`.
pub fn headless_command(exe: &str, cats: &Vec<CleanCategory>) -> (r: String)
    ensures
        r@ == spec_headless_command(exe@, cats@),
{
    let mut s = "\"".to_owned();
    push_str(&mut s, exe);
    push_str(&mut s, "\" ");
    push_str(&mut s, HEADLESS_FLAG);
    push_str(&mut s, " ");
    let ghost head = s@;
    let mut i: usize = 0;
    while i < cats.len()
        invariant
            i <= cats.len(),
            s@ == head + join(category_names(cats@.subrange(0, i as int)), " "@),
        decreases cats.len() - i,
    {
        let ghost names_i = category_names(cats@.subrange(0, i as int));
        let ghost names_next = category_names(cats@.subrange(0, i + 1));
        assert(names_next.drop_last() =~= names_i);
        assert(names_next.last() == spec_category_name(cats@[i as int]));
        if i > 0 {
            push_str(&mut s, " ");
        }
        push_str(&mut s, category_name(cats[i]));
        proof {
            if i == 0 {
                assert(names_next.len() == 1);
                assert(join(names_i, " "@) =~= Seq::<char>::empty());
            }
        }
        i = i + 1;
        assert(s@ =~= head + join(category_names(cats@.subrange(0, i as int)), " "@));
    }
    assert(cats@.subrange(0, i as int) =~= cats@);
    s
}

/// Strings of the given literals, in order.
fn strings(parts: &[&str]) -> (r: Vec<String>)
    ensures
        r@.map_values(|s: String| s@) == parts@.map_values(|s: &str| s@),
{
    let mut r: Vec<String> = Vec::new();
    let mut i: usize = 0;
    while i < parts.len()
        invariant
            i <= parts.len(),
            r@.map_values(|s: String| s@) == parts@.subrange(0, i as int).map_values(|s: &str| s@),
        decreases parts.len() - i,
    {
        let ghost before = r@;
        r.push(parts[i].to_owned());
        assert(r@.map_values(|s: String| s@) =~= before.map_values(|s: String| s@).push(parts@[i as int]@));
        i = i + 1;
        assert(parts@.subrange(0, i as int).map_values(|s: &str| s@) =~= parts@.subrange(0, i - 1).map_values(
            |s: &str| s@,
        ).push(parts@[i - 1]@));
    }
    assert(parts@.subrange(0, i as int) =~= parts@);
    r
}

/// The arguments of `schtasks` that register the task running `exe`.
pub open spec fn spec_register_args(config: ScheduleConfig, exe: Seq<char>) -> Seq<Seq<char>> {
    seq![
        "/Create"@,
        "/F"@,
        "/SC"@,
        spec_schedule_word(config.frequency),
        "/TN"@,
        TASK_NAME@,
        "/TR"@,
        spec_headless_command(exe, config.categories@),
        "/ST"@,
        spec_start_time(config.hour, config.minute),
        "/RL"@,
        "HIGHEST"@,
    ]
}

/// The arguments of `schtasks` that register the scheduled cleanup of
/// `config` for the executable `exe`.
pub fn register_args(config: &ScheduleConfig, exe: &str) -> (r: Vec<String>)
    ensures
        r@.map_values(|s: String| s@) == spec_register_args(*config, exe@),
{
    let tr = headless_command(exe, &config.categories);
    let st = start_time(config.hour, config.minute);
    let r = strings(
        &[
            "/Create",
            "/F",
            "/SC",
            schedule_word(config.frequency),
            "/TN",
            TASK_NAME,
            "/TR",
            tr.as_str(),
            "/ST",
            st.as_str(),
            "/RL",
            "HIGHEST",
        ],
    );
    assert(r@.map_values(|s: String| s@) =~= spec_register_args(*config, exe@));
    r
}

/// The message shown once the task is registered.
pub fn register_message(config: &ScheduleConfig) -> (r: String)
    ensures
        r@ == "已注册系统计划任务 \""@ + TASK_NAME@ + "\"，将在每"@ + (if config.frequency
            == ScheduleFrequency::Daily {
            "天"@
        } else {
            "周"@
        }) + "于 "@ + spec_start_time(config.hour, config.minute) + " 执行"@,
{
    let mut s = "已注册系统计划任务 \"".to_owned();
    push_str(&mut s, TASK_NAME);
    push_str(&mut s, "\"，将在每");
    if config.frequency == ScheduleFrequency::Daily {
        push_str(&mut s, "天");
    } else {
        push_str(&mut s, "周");
    }
    push_str(&mut s, "于 ");
    let st = start_time(config.hour, config.minute);
    push_str(&mut s, st.as_str());
    push_str(&mut s, " 执行");
    s
}

/// The arguments of `schtasks` that remove the task.
pub fn unregister_args() -> (r: Vec<String>)
    ensures
        r@.map_values(|s: String| s@) == seq!["/Delete"@, "/F"@, "/TN"@, TASK_NAME@],
{
    let r = strings(&["/Delete", "/F", "/TN", TASK_NAME]);
    assert(r@.map_values(|s: String| s@) =~= seq!["/Delete"@, "/F"@, "/TN"@, TASK_NAME@]);
    r
}

/// The message shown once the task is removed.
pub fn unregister_message() -> (r: String)
    ensures
        r@ == "已移除系统计划任务 \""@ + TASK_NAME@ + "\""@,
{
    let mut s = "已移除系统计划任务 \"".to_owned();
    push_str(&mut s, TASK_NAME);
    push_str(&mut s, "\"");
    s
}

/// `prefix` followed by `detail`: the message of a failed or unstartable
/// command.
pub fn failure_message(prefix: &str, detail: &str) -> (r: String)
    ensures
        r@ == prefix@ + detail@,
{
    let mut s = prefix.to_owned();
    push_str(&mut s, detail);
    s
}

/// The answer to a run of a system command: `done` when it succeeded,
/// else `prefix` followed by what it wrote to its error stream.
pub fn command_outcome(succeeded: bool, done: String, prefix: &str, stderr: &str) -> (r: Result<
    String,
    String,
>)
    ensures
        succeeded ==> (r matches Ok(m) && m@ == done@),
        !succeeded ==> (r matches Err(e) && e@ == prefix@ + stderr@),
{
    if succeeded {
        Ok(done)
    } else {
        Err(failure_message(prefix, stderr))
    }
}

/// The start-up command: `exe` alone, or in silent mode the headless
/// cleanup of the default categories.
pub open spec fn spec_autostart_command(exe: Seq<char>, silent: bool) -> Seq<char> {
    if silent {
        "\""@ + exe + "\" --headless-clean WindowsTemp BrowserCache WindowsUpdate"@
    } else {
        "\""@ + exe + "\""@
    }
}

/// The start-up command for `exe`.
pub fn autostart_command(exe: &str, silent: bool) -> (r: String)
    ensures
        r@ == spec_autostart_command(exe@, silent),
{
    let mut s = "\"".to_owned();
    push_str(&mut s, exe);
    if silent {
        push_str(&mut s, "\" --headless-clean WindowsTemp BrowserCache WindowsUpdate");
    } else {
        push_str(&mut s, "\"");
    }
    s
}

/// The arguments of `reg` that record the start-up command.
pub fn autostart_enable_args(exe: &str, silent: bool) -> (r: Vec<String>)
    ensures
        r@.map_values(|s: String| s@) == seq![
            "add"@,
            RUN_KEY_PATH@,
            "/v"@,
            RUN_VALUE_NAME@,
            "/t"@,
            "REG_SZ"@,
            "/d"@,
            spec_autostart_command(exe@, silent),
            "/f"@,
        ],
{
    let command = autostart_command(exe, silent);
    let r = strings(
        &["add", RUN_KEY_PATH, "/v", RUN_VALUE_NAME, "/t", "REG_SZ", "/d", command.as_str(), "/f"],
    );
    assert(r@.map_values(|s: String| s@) =~= seq![
        "add"@,
        RUN_KEY_PATH@,
        "/v"@,
        RUN_VALUE_NAME@,
        "/t"@,
        "REG_SZ"@,
        "/d"@,
        spec_autostart_command(exe@, silent),
        "/f"@,
    ]);
    r
}

/// The message shown once start-up is enabled.
pub fn autostart_enabled_message(silent: bool) -> (r: String)
    ensures
        r@ == if silent {
            "已启用开机自启（静默清理模式）"@
        } else {
            "已启用开机自启（启动主界面）"@
        },
{
    if silent {
        "已启用开机自启（静默清理模式）".to_owned()
    } else {
        "已启用开机自启（启动主界面）".to_owned()
    }
}

/// The message shown once start-up is disabled.
pub fn autostart_disabled_message() -> (r: String)
    ensures
        r@ == "已取消开机自启"@,
{
    "已取消开机自启".to_owned()
}

/// The arguments of `reg` that remove the start-up command.
pub fn autostart_disable_args() -> (r: Vec<String>)
    ensures
        r@.map_values(|s: String| s@) == seq!["delete"@, RUN_KEY_PATH@, "/v"@, RUN_VALUE_NAME@, "/f"@],
{
    let r = strings(&["delete", RUN_KEY_PATH, "/v", RUN_VALUE_NAME, "/f"]);
    assert(r@.map_values(|s: String| s@) =~= seq!["delete"@, RUN_KEY_PATH@, "/v"@, RUN_VALUE_NAME@, "/f"@]);
    r
}

/// The arguments of `reg` that look the start-up command up.
pub fn autostart_query_args() -> (r: Vec<String>)
    ensures
        r@.map_values(|s: String| s@) == seq!["query"@, RUN_KEY_PATH@, "/v"@, RUN_VALUE_NAME@],
{
    let r = strings(&["query", RUN_KEY_PATH, "/v", RUN_VALUE_NAME]);
    assert(r@.map_values(|s: String| s@) =~= seq!["query"@, RUN_KEY_PATH@, "/v"@, RUN_VALUE_NAME@]);
    r
}

/// The silent start-up command is the headless cleanup of the default
/// categories, the same command a scheduled task with them runs.
pub proof fn lemma_silent_autostart_is_default_headless(exe: Seq<char>)
    ensures
        spec_autostart_command(exe, true) == spec_headless_command(exe, default_categories()),
{
    reveal_strlit("\" --headless-clean WindowsTemp BrowserCache WindowsUpdate");
    reveal_strlit("\" ");
    reveal_strlit("--headless-clean");
    reveal_strlit(" ");
    reveal_strlit("WindowsTemp");
    reveal_strlit("BrowserCache");
    reveal_strlit("WindowsUpdate");
    let names = category_names(default_categories());
    assert(names =~= seq!["WindowsTemp"@, "BrowserCache"@, "WindowsUpdate"@]);
    assert(names.drop_last() =~= seq!["WindowsTemp"@, "BrowserCache"@]);
    assert(names.drop_last().drop_last() =~= seq!["WindowsTemp"@]);
    assert(join(names.drop_last().drop_last(), " "@) == "WindowsTemp"@);
    assert(join(names.drop_last(), " "@) == "WindowsTemp"@ + " "@ + "BrowserCache"@);
    assert(join(names, " "@) == "WindowsTemp"@ + " "@ + "BrowserCache"@ + " "@ + "WindowsUpdate"@);
    assert("\" --headless-clean WindowsTemp BrowserCache WindowsUpdate"@ =~= "\" "@ + HEADLESS_FLAG@
        + " "@ + join(names, " "@));
}

/// The registered task repeats as configured: the `/SC` argument is
/// `DAILY` for a daily schedule and `WEEKLY` for a weekly one, two
/// different words.
pub proof fn lemma_task_repeats_as_configured(config: ScheduleConfig, exe: Seq<char>)
    ensures
        spec_register_args(config, exe)[2] == "/SC"@,
        spec_register_args(config, exe)[3] == (if config.frequency == ScheduleFrequency::Daily {
            "DAILY"@
        } else {
            "WEEKLY"@
        }),
        "DAILY"@ != "WEEKLY"@,
{
    reveal_strlit("DAILY");
    reveal_strlit("WEEKLY");
    assert("DAILY"@[0] != "WEEKLY"@[0]);
}

} // verus!
