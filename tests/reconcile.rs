use dotswitch::paths::{expand_tilde_with, join_path, PathError};
use dotswitch::profiles::{
    backup_plan, backup_root, default_ignored, ensure_exists, module_decision, new_backup_root,
    preview_report, relative_path, select_entries, update_plan, Entry, ProfileError, Run,
};
use dotswitch::{expand_tilde, Config, ProfileAction};
use std::collections::HashMap;

fn strings(v: &[&str]) -> Vec<String> {
    v.iter().map(|s| s.to_string()).collect()
}

fn entries_of(root: &str, files: &[&str]) -> Vec<Entry> {
    select_entries(root, &strings(files), &default_ignored())
}

#[test]
fn join_adds_one_separator() {
    assert_eq!(join_path("/home/u", ".config"), "/home/u/.config");
    assert_eq!(join_path("/home/u/", ".config"), "/home/u/.config");
    assert_eq!(join_path("", "a/b"), "a/b");
    assert_eq!(join_path("/home/u", "/etc/x"), "/etc/x");
}

#[test]
fn tilde_expands_every_occurrence() {
    assert_eq!(expand_tilde_with("~/.dotprofiles", "/home/u"), "/home/u/.dotprofiles");
    assert_eq!(expand_tilde_with("a ~/b ~/c", "/h"), "a /h/b /h/c");
    assert_eq!(expand_tilde_with("~user/x", "/h"), "~user/x");
    assert_eq!(expand_tilde_with("~", "/h"), "~");
    assert_eq!(expand_tilde_with("", "/h"), "");
}

#[test]
fn expand_tilde_uses_the_home_directory() {
    match expand_tilde("~/x") {
        Ok(s) => {
            assert_ne!(s, "~/x");
            assert!(s.ends_with("/x"));
        }
        Err(e) => assert_eq!(e, PathError::HomeUnknown),
    }
    if let Ok(s) = expand_tilde("/abs/path") {
        assert_eq!(s, "/abs/path");
    }
}

#[test]
fn relative_paths_beneath_root() {
    assert_eq!(relative_path("/p/work/common", "/p/work/common/nvim/init.lua"), Some("nvim/init.lua".to_string()));
    assert_eq!(relative_path("/p/work/common/", "/p/work/common/a"), Some("a".to_string()));
    assert_eq!(relative_path("/p/work/common", "/p/work/common"), None);
    assert_eq!(relative_path("/p/work/common", "/p/work/commonx/a"), None);
    assert_eq!(relative_path("/p/work/common", "/q/a"), None);
}

#[test]
fn selection_skips_ignored_names_at_root_only() {
    let es = entries_of(
        "/p/work/common",
        &[
            "/p/work/common/nvim/init.lua",
            "/p/work/common/script.sh",
            "/p/work/common/wallpaper.png",
            "/p/work/common/tools/script.sh",
            "/elsewhere/file",
        ],
    );
    let rels: Vec<&str> = es.iter().map(|e| e.relative.as_str()).collect();
    assert_eq!(rels, vec!["nvim/init.lua", "tools/script.sh"]);
    assert_eq!(es[0].source, "/p/work/common/nvim/init.lua");
    assert_eq!(es[1].source, "/p/work/common/tools/script.sh");
}

#[test]
fn selection_of_empty_module_is_empty() {
    assert!(entries_of("/p/work/common", &[]).is_empty());
}

#[test]
fn update_links_each_file_into_config_dir() {
    let es = entries_of("/home/u/.dotprofiles/work/common", &["/home/u/.dotprofiles/work/common/nvim/init.lua"]);
    let links = update_plan("/home/u/.config", &es);
    assert_eq!(links.len(), 1);
    assert_eq!(links[0].dest, "/home/u/.config/nvim/init.lua");
    assert_eq!(links[0].source, "/home/u/.dotprofiles/work/common/nvim/init.lua");
}

#[test]
fn script_at_root_is_never_linked_or_backed_up() {
    let es = entries_of("/m", &["/m/script.sh", "/m/a"]);
    let links = update_plan("/c", &es);
    assert!(links.iter().all(|l| l.dest != "/c/script.sh"));
    let copies = backup_plan("/c", "/b", &es, &vec![true; es.len()]);
    assert!(copies.iter().all(|c| c.to != "/b/script.sh"));
    assert_eq!(copies.len(), 1);
}

#[test]
fn update_twice_gives_same_links() {
    let es = entries_of("/m", &["/m/a", "/m/d/b"]);
    let first = update_plan("/c", &es);
    let second = update_plan("/c", &es);
    let pairs = |v: &Vec<dotswitch::profiles::Link>| -> Vec<(String, String)> {
        v.iter().map(|l| (l.dest.clone(), l.source.clone())).collect()
    };
    assert_eq!(pairs(&first), pairs(&second));
}

#[test]
fn later_module_wins_on_shared_path() {
    let a = entries_of("/p/a", &["/p/a/x/p"]);
    let b = entries_of("/p/b", &["/p/b/x/p"]);
    let apply = |order: Vec<&Vec<Entry>>| {
        let mut state: HashMap<String, String> = HashMap::new();
        for es in order {
            for l in update_plan("/c", es) {
                state.insert(l.dest, l.source);
            }
        }
        state
    };
    assert_eq!(apply(vec![&a, &b])["/c/x/p"], "/p/b/x/p");
    assert_eq!(apply(vec![&b, &a])["/c/x/p"], "/p/a/x/p");
}

#[test]
fn backup_copies_only_present_destinations() {
    let es = entries_of("/m", &["/m/a", "/m/d/b", "/m/c"]);
    let copies = backup_plan("/c", "/cache/dotswitch/2024-01-02_03:04:05", &es, &vec![true, false, true]);
    assert_eq!(copies.len(), 2);
    assert_eq!(copies[0].from, "/c/a");
    assert_eq!(copies[0].to, "/cache/dotswitch/2024-01-02_03:04:05/a");
    assert_eq!(copies[1].from, "/c/c");
    assert_eq!(copies[1].to, "/cache/dotswitch/2024-01-02_03:04:05/c");
    assert!(backup_plan("/c", "/b", &es, &vec![false, false, false]).is_empty());
}

#[test]
fn preview_reports_existing_destinations() {
    let es = entries_of("/m", &["/m/a", "/m/b"]);
    let links = update_plan("/c", &es);
    let lines = preview_report(&links, &vec![false, true]);
    assert_eq!(lines, vec!["Would create symlink: /m/b -> /c/b".to_string()]);
}

#[test]
fn missing_module_fails_preview_only() {
    assert_eq!(module_decision(ProfileAction::Update, "/p/w/m", false), Ok(false));
    assert_eq!(module_decision(ProfileAction::Backup, "/p/w/m", false), Ok(false));
    assert_eq!(
        module_decision(ProfileAction::Preview, "/p/w/m", false),
        Err(ProfileError::PreviewTargetMissing("/p/w/m".to_string()))
    );
    assert_eq!(module_decision(ProfileAction::Preview, "/p/w/m", true), Ok(true));
    assert_eq!(module_decision(ProfileAction::Update, "/p/w/m", true), Ok(true));
}

#[test]
fn ensure_exists_reports_the_path() {
    assert_eq!(ensure_exists("/x", true), Ok(()));
    assert_eq!(ensure_exists("/x", false), Err(ProfileError::PreviewTargetMissing("/x".to_string())));
}

#[test]
fn backup_root_layout() {
    assert_eq!(backup_root(Some("/home/u/.cache".to_string()), "/home/u/.config", "2024-05-06_07:08:09"), "/home/u/.cache/dotswitch/2024-05-06_07:08:09");
    assert_eq!(backup_root(None, "/home/u/.config", "t"), "/home/u/.config/.cache/dotswitch/t");
}

#[test]
fn new_backup_root_is_timestamped() {
    let r = new_backup_root("/home/u/.config");
    let parts: Vec<&str> = r.rsplitn(2, '/').collect();
    assert_eq!(parts[0].len(), "YYYY-MM-DD_HH:MM:SS".len());
    let t: Vec<char> = parts[0].chars().collect();
    assert_eq!((t[4], t[7], t[10], t[13], t[16]), ('-', '-', '_', ':', ':'));
    assert!(parts[1].ends_with("/dotswitch"));
}

#[test]
fn run_places() {
    let config = Config {
        profiles_path: "/home/u/.dotprofiles".to_string(),
        global_scripts: vec![],
        per_profile_scripts: vec![],
    };
    let run = Run::new(ProfileAction::Update, "/home/u", &config, "work");
    assert_eq!(run.config_dir, "/home/u/.config");
    assert_eq!(run.base, "/home/u/.dotprofiles/work");
    assert!(run.backup_root.is_none());
    assert_eq!(run.module_dir("common"), "/home/u/.dotprofiles/work/common");
    let backup = Run::new(ProfileAction::Backup, "/home/u", &config, "work");
    assert!(backup.backup_root.unwrap().contains("/dotswitch/"));
}

#[test]
fn missing_module_message() {
    let e = ensure_exists("/no/such/dir", false).unwrap_err();
    assert_eq!(e.message(), "module directory '/no/such/dir' does not exist");
}

#[test]
fn update_of_several_modules_twice_gives_same_links() {
    let a = entries_of("/p/a", &["/p/a/x/p", "/p/a/q"]);
    let b = entries_of("/p/b", &["/p/b/x/p", "/p/b/r"]);
    let mut state: HashMap<String, String> = HashMap::new();
    for es in [&a, &b] {
        for l in update_plan("/c", es) {
            state.insert(l.dest, l.source);
        }
    }
    let once = state.clone();
    for es in [&a, &b] {
        for l in update_plan("/c", es) {
            state.insert(l.dest, l.source);
        }
    }
    assert_eq!(state, once);
    assert_eq!(once["/c/x/p"], "/p/b/x/p");
}
