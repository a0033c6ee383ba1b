use dotswitch::config::{config_from_lines, parse_config, parse_setting, split_lines, trim};
use dotswitch::scripts::{preview_scripts, profile_script_path, script_result, scripts_to_run, ScriptOutcome, ScriptQueue};
use dotswitch::{Action, Config, ProfileAction, ProfileArgs};

fn config() -> Config {
    Config {
        profiles_path: "/p".to_string(),
        global_scripts: vec!["~/bin/g1".to_string(), "/bin/g2".to_string()],
        per_profile_scripts: vec!["setup.sh".to_string()],
    }
}

#[test]
fn per_profile_scripts_follow_global_ones() {
    assert_eq!(profile_script_path("/p/work", "setup.sh"), "/p/work/setup.sh");
    assert_eq!(scripts_to_run(&config(), "/p/work"), vec!["~/bin/g1", "/bin/g2", "/p/work/setup.sh"]);
}

#[test]
fn preview_names_scripts() {
    assert_eq!(
        preview_scripts(&config(), "/p/work"),
        vec![
            "Would run global executable: ~/bin/g1",
            "Would run global executable: /bin/g2",
            "Would run profile executable: /p/work/setup.sh",
        ]
    );
}

#[test]
fn script_results() {
    let ok = ScriptOutcome::Exited { success: true, status: "exit status: 0".to_string() };
    let bad = ScriptOutcome::Exited { success: false, status: "exit status: 3".to_string() };
    let gone = ScriptOutcome::NotStarted("No such file or directory".to_string());
    assert_eq!(script_result("/bin/g", &ok), Ok("Executed script /bin/g".to_string()));
    assert_eq!(script_result("/bin/g", &bad), Err("script exited with status: exit status: 3".to_string()));
    assert_eq!(script_result("/bin/g", &gone), Err("No such file or directory".to_string()));
}

#[test]
fn failing_script_does_not_stop_the_rest() {
    let mut q = ScriptQueue::new(&config(), "/p/work");
    let mut ran = Vec::new();
    let mut failures = 0;
    while let Some(s) = q.next_script() {
        ran.push(s.clone());
        let outcome = if s == "~/bin/g1" {
            ScriptOutcome::Exited { success: false, status: "exit status: 1".to_string() }
        } else {
            ScriptOutcome::Exited { success: true, status: "exit status: 0".to_string() }
        };
        if q.record(&s, &outcome).is_err() {
            failures += 1;
        }
    }
    assert_eq!(ran, vec!["~/bin/g1", "/bin/g2", "/p/work/setup.sh"]);
    assert_eq!(failures, 1);
}

#[test]
fn settings_are_trimmed_and_split_at_first_eq() {
    assert_eq!(parse_setting("  key = a=b  "), Some(("key".to_string(), "a=b".to_string())));
    assert_eq!(parse_setting("# profiles_path = x"), None);
    assert_eq!(parse_setting("   "), None);
    assert_eq!(parse_setting("novalue"), None);
    assert_eq!(parse_setting("k="), Some(("k".to_string(), "".to_string())));
}

#[test]
fn config_takes_first_profiles_path_and_all_scripts() {
    let lines: Vec<String> = [
        "# comment",
        "profiles_path = ~/.dotprofiles",
        "profiles_path = /other",
        "global_script = ~/bin/a",
        "unknown = 1",
        "",
        "per_profile_script = setup.sh",
        "global_script=/bin/b",
    ]
    .iter()
    .map(|s| s.to_string())
    .collect();
    let c = config_from_lines(&lines, "/home/u");
    assert_eq!(c.profiles_path, "/home/u/.dotprofiles");
    assert_eq!(c.global_scripts, vec!["~/bin/a", "/bin/b"]);
    assert_eq!(c.per_profile_scripts, vec!["setup.sh"]);
}

#[test]
fn config_default_profiles_path() {
    let c = config_from_lines(&Vec::new(), "/home/u");
    assert_eq!(c.profiles_path, "/home/u/.config/dotswitch/profiles/");
    assert!(c.global_scripts.is_empty());
    assert!(c.per_profile_scripts.is_empty());
}

#[test]
fn parse_config_reads_lines() {
    if let Ok(c) = parse_config("profiles_path = /abs/profiles\r\nglobal_script = /bin/x\n") {
        assert_eq!(c.profiles_path, "/abs/profiles");
        assert_eq!(c.global_scripts, vec!["/bin/x"]);
    }
}

#[test]
fn actions_map_to_runs() {
    let args = ProfileArgs { name: "work".to_string(), modules: vec!["common".to_string()] };
    assert_eq!(Action::List.profile_action(), None);
    assert_eq!(Action::Switch(args.clone()).profile_action(), Some(ProfileAction::Update));
    assert_eq!(Action::Backup(args.clone()).profile_action(), Some(ProfileAction::Backup));
    assert_eq!(Action::Preview(args).profile_action(), Some(ProfileAction::Preview));
}

#[test]
fn lines_split_at_newlines() {
    assert!(split_lines("").is_empty());
    assert_eq!(split_lines("a\r\nb\n\nc"), vec!["a", "b", "", "c"]);
    assert_eq!(split_lines("a\n"), vec!["a"]);
    assert_eq!(split_lines("a\r"), vec!["a\r"]);
    assert_eq!(split_lines("\n"), vec![""]);
}

#[test]
fn trim_removes_unicode_white_space() {
    assert_eq!(trim("  a b\t\n"), "a b");
    assert_eq!(trim("\u{a0}\u{3000}x\u{2009}"), "x");
    assert_eq!(trim(" \t "), "");
    assert_eq!(trim("x"), "x");
}

#[test]
fn empty_config_gives_defaults() {
    let c = config_from_lines(&split_lines(""), "/home/u");
    assert_eq!(c.profiles_path, "/home/u/.config/dotswitch/profiles/");
}

#[test]
fn record_reports_the_path_that_ran() {
    let mut q = ScriptQueue::new(&config(), "/p/work");
    let ok = ScriptOutcome::Exited { success: true, status: "exit status: 0".to_string() };
    assert_eq!(q.record("/home/u/bin/g1", &ok), Ok("Executed script /home/u/bin/g1".to_string()));
    assert_eq!(q.next_script(), Some("/bin/g2".to_string()));
}
