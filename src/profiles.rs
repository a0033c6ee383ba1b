//! The reconciliation engine: which files of a module take part, where each
//! one goes under the configuration directory, and what each action does
//! with it.
use vstd::prelude::*;

use crate::config::Config;
use crate::paths::{join_path, joined};

verus! {

/// What a run does with the files of the chosen modules.
#[derive(Debug, Clone, Copy, PartialEq, Eq, Structural)]
pub enum ProfileAction {
    /// Copy the destination files that exist into a timestamped backup tree.
    Backup,
    /// Link every file of the modules into the configuration directory.
    Update,
    /// Report what an update would replace, and touch nothing.
    Preview,
}

/// Errors of a run.
#[derive(Debug, Clone, PartialEq, Eq)]
pub enum ProfileError {
    /// A preview was asked for a module directory that does not exist.
    PreviewTargetMissing(String),
}

/// The message that reports `e`.
pub open spec fn error_message(e: ProfileError) -> Seq<char> {
    match e {
        ProfileError::PreviewTargetMissing(p) => "module directory '"@ + p@ + "' does not exist"@,
    }
}

impl ProfileError {
    /// The message that reports the error (see `error_message`).
    pub fn message(&self) -> (r: String)
        ensures
            r@ == error_message(*self),
    {
        match self {
            ProfileError::PreviewTargetMissing(p) => {
                let mut m = "module directory '".to_owned();
                m.append(p.as_str());
                m.append("' does not exist");
                m
            },
        }
    }
}

/// A file found under a module: its path, and its path relative to the
/// module root.
#[derive(Debug, Clone)]
pub struct Entry {
    pub source: String,
    pub relative: String,
}

/// A symbolic link to create: `dest` will point at `source`.
#[derive(Debug, Clone)]
pub struct Link {
    pub source: String,
    pub dest: String,
}

/// A copy to make: the file at `from` is copied to `to`.
#[derive(Debug, Clone)]
pub struct BackupCopy {
    pub from: String,
    pub to: String,
}

pub open spec fn str_views(v: Seq<String>) -> Seq<Seq<char>> {
    v.map_values(|s: String| s@)
}

pub open spec fn entry_views(v: Seq<Entry>) -> Seq<(Seq<char>, Seq<char>)> {
    v.map_values(|e: Entry| (e.source@, e.relative@))
}

pub open spec fn link_views(v: Seq<Link>) -> Seq<(Seq<char>, Seq<char>)> {
    v.map_values(|l: Link| (l.source@, l.dest@))
}

pub open spec fn copy_views(v: Seq<BackupCopy>) -> Seq<(Seq<char>, Seq<char>)> {
    v.map_values(|c: BackupCopy| (c.from@, c.to@))
}

/// `root` with exactly one `/` at its end.
pub open spec fn dir_prefix(root: Seq<char>) -> Seq<char> {
    if root.len() > 0 && root.last() == '/' {
        root
    } else {
        root + seq!['/']
    }
}

/// The path of `path` relative to the directory `root`: what follows `root`
/// and its separator, where `path` lies strictly beneath `root`.
pub open spec fn relative_to(root: Seq<char>, path: Seq<char>) -> Option<Seq<char>> {
    let p = dir_prefix(root);
    if path.len() > p.len() && path.subrange(0, p.len() as int) == p && path[p.len() as int]
        != '/' {
        Some(path.skip(p.len() as int))
    } else {
        None
    }
}

/// The entry that `file` gives: none where it is not beneath `root`, or where
/// its relative path is one of the `ignored` names.
pub open spec fn entry_of(root: Seq<char>, file: Seq<char>, ignored: Seq<Seq<char>>) -> Seq<
    (Seq<char>, Seq<char>),
> {
    match relative_to(root, file) {
        Some(rel) => if ignored.contains(rel) {
            seq![]
        } else {
            seq![(file, rel)]
        },
        None => seq![],
    }
}

/// The entries of the files of a module, in the order of the files.
pub open spec fn selected(root: Seq<char>, files: Seq<Seq<char>>, ignored: Seq<Seq<char>>) -> Seq<
    (Seq<char>, Seq<char>),
>
    decreases files.len(),
{
    if files.len() == 0 {
        seq![]
    } else {
        selected(root, files.drop_last(), ignored) + entry_of(root, files.last(), ignored)
    }
}

/// Whether `s` begins with `p`.
pub(crate) fn starts_with(s: &str, p: &str) -> (r: bool)
    ensures
        r == (s@.len() >= p@.len() && s@.subrange(0, p@.len() as int) == p@),
{
    let n = p.unicode_len();
    if s.unicode_len() < n {
        return false;
    }
    let mut i: usize = 0;
    while i < n
        invariant
            n == p@.len(),
            n <= s@.len(),
            i <= n,
            s@.subrange(0, i as int) == p@.subrange(0, i as int),
        decreases n - i,
    {
        if s.get_char(i) != p.get_char(i) {
            assert(s@.subrange(0, n as int)[i as int] != p@[i as int]);
            return false;
        }
        assert(s@.subrange(0, i + 1) =~= s@.subrange(0, i as int).push(s@[i as int]));
        assert(p@.subrange(0, i + 1) =~= p@.subrange(0, i as int).push(p@[i as int]));
        i = i + 1;
    }
    assert(p@.subrange(0, n as int) =~= p@);
    true
}

/// The path of `path` relative to the directory `root` (see `relative_to`).
pub fn relative_path(root: &str, path: &str) -> (r: Option<String>)
    ensures
        r matches Some(s) ==> relative_to(root@, path@) == Some(s@),
        r is None ==> relative_to(root@, path@) is None,
{
    let mut prefix = root.to_owned();
    let m = root.unicode_len();
    if m == 0 || root.get_char(m - 1) != '/' {
        proof {
            reveal_strlit("/");
        }
        prefix.append("/");
    }
    assert(prefix@ == dir_prefix(root@));
    let k = prefix.unicode_len();
    let n = path.unicode_len();
    if n > k && starts_with(path, prefix.as_str()) && path.get_char(k) != '/' {
        Some(path.substring_char(k, n).to_owned())
    } else {
        None
    }
}

/// Whether `name` is one of `names`.
pub(crate) fn contains_name(names: &Vec<String>, name: &str) -> (r: bool)
    ensures
        r == str_views(names@).contains(name@),
{
    let mut j: usize = 0;
    while j < names.len()
        invariant
            j <= names.len(),
            forall|k: int| 0 <= k < j ==> names@[k]@ != name@,
        decreases names.len() - j,
    {
        if names[j].as_str().unicode_len() == name.unicode_len() && starts_with(
            names[j].as_str(),
            name,
        ) {
            assert(names@[j as int]@ =~= name@);
            assert(str_views(names@)[j as int] == name@);
            return true;
        }
        proof {
            if names@[j as int]@.len() == name@.len() {
                assert(names@[j as int]@.subrange(0, name@.len() as int) =~= names@[j as int]@);
            }
        }
        j = j + 1;
    }
    proof {
        if str_views(names@).contains(name@) {
            let k = choose|k: int| 0 <= k < names@.len() && str_views(names@)[k] == name@;
            assert(names@[k]@ == name@);
        }
    }
    false
}

/// The files of a module that take part in a run: each file of `files`
/// strictly beneath `root`, with its relative path, save those whose relative
/// path is one of `ignored`. Only the relative path as a whole is compared, so
/// a file of an ignored name in a subdirectory takes part.
pub fn select_entries(root: &str, files: &Vec<String>, ignored: &Vec<String>) -> (r: Vec<Entry>)
    ensures
        entry_views(r@) == selected(root@, str_views(files@), str_views(ignored@)),
{
    let mut r: Vec<Entry> = Vec::new();
    let mut i: usize = 0;
    while i < files.len()
        invariant
            i <= files.len(),
            entry_views(r@) == selected(
                root@,
                str_views(files@).subrange(0, i as int),
                str_views(ignored@),
            ),
        decreases files.len() - i,
    {
        let ghost prev = r@;
        let file = files[i].as_str();
        proof {
            let fs = str_views(files@).subrange(0, i + 1);
            assert(fs.drop_last() =~= str_views(files@).subrange(0, i as int));
            assert(fs.last() == file@);
        }
        match relative_path(root, file) {
            Some(rel) => {
                if !contains_name(ignored, rel.as_str()) {
                    r.push(Entry { source: file.to_owned(), relative: rel });
                    assert(entry_views(r@) =~= entry_views(prev) + seq![(file@, rel@)]);
                } else {
                    assert(entry_views(r@) =~= entry_views(prev) + seq![]);
                }
            },
            None => {
                assert(entry_views(r@) =~= entry_views(prev) + seq![]);
            },
        }
        i = i + 1;
    }
    assert(str_views(files@).subrange(0, files.len() as int) =~= str_views(files@));
    r
}

/// The names that never take part in a run: a module keeps its wallpaper and
/// its own setup script at its root.
pub fn default_ignored() -> (r: Vec<String>)
    ensures
        str_views(r@) == seq!["wallpaper.png"@, "script.sh"@],
{
    let mut r: Vec<String> = Vec::new();
    r.push("wallpaper.png".to_owned());
    r.push("script.sh".to_owned());
    assert(str_views(r@) =~= seq!["wallpaper.png"@, "script.sh"@]);
    r
}

/// The links that an update of a module creates: for each entry, one from
/// its place under `config_dir` to its source file, in the order of the
/// entries.
pub open spec fn links_of(config_dir: Seq<char>, entries: Seq<(Seq<char>, Seq<char>)>) -> Seq<
    (Seq<char>, Seq<char>),
> {
    entries.map_values(|e: (Seq<char>, Seq<char>)| (e.0, joined(config_dir, e.1)))
}

/// The links that an update creates for `entries` (see `links_of`).
pub fn update_plan(config_dir: &str, entries: &Vec<Entry>) -> (r: Vec<Link>)
    ensures
        link_views(r@) == links_of(config_dir@, entry_views(entries@)),
{
    let mut r: Vec<Link> = Vec::new();
    let mut i: usize = 0;
    while i < entries.len()
        invariant
            i <= entries.len(),
            link_views(r@) == links_of(config_dir@, entry_views(entries@).subrange(0, i as int)),
        decreases entries.len() - i,
    {
        let ghost prev = r@;
        let e = &entries[i];
        let dest = join_path(config_dir, e.relative.as_str());
        let source = e.source.clone();
        r.push(Link { source, dest });
        assert(link_views(r@) =~= link_views(prev).push((source@, dest@)));
        assert(entry_views(entries@).subrange(0, i + 1) =~= entry_views(entries@).subrange(
            0,
            i as int,
        ).push((e.source@, e.relative@)));
        assert(link_views(r@) =~= links_of(
            config_dir@,
            entry_views(entries@).subrange(0, i + 1),
        ));
        i = i + 1;
    }
    assert(entry_views(entries@).subrange(0, entries.len() as int) =~= entry_views(entries@));
    r
}

/// The copies that a backup makes: for each entry whose destination under
/// `config_dir` exists (`present`), one from that destination to the same
/// relative path under `backup_root`, in the order of the entries.
pub open spec fn copies_of(
    config_dir: Seq<char>,
    backup_root: Seq<char>,
    entries: Seq<(Seq<char>, Seq<char>)>,
    present: Seq<bool>,
) -> Seq<(Seq<char>, Seq<char>)>
    decreases entries.len(),
{
    if entries.len() == 0 || present.len() == 0 {
        seq![]
    } else {
        let rest = copies_of(config_dir, backup_root, entries.drop_last(), present.drop_last());
        let rel = entries.last().1;
        if present.last() {
            rest.push((joined(config_dir, rel), joined(backup_root, rel)))
        } else {
            rest
        }
    }
}

/// The copies that a backup makes (see `copies_of`); `present[i]` tells
/// whether the destination of `entries[i]` exists.
pub fn backup_plan(
    config_dir: &str,
    backup_root: &str,
    entries: &Vec<Entry>,
    present: &Vec<bool>,
) -> (r: Vec<BackupCopy>)
    requires
        present.len() == entries.len(),
    ensures
        copy_views(r@) == copies_of(config_dir@, backup_root@, entry_views(entries@), present@),
{
    let mut r: Vec<BackupCopy> = Vec::new();
    let mut i: usize = 0;
    while i < entries.len()
        invariant
            i <= entries.len(),
            present.len() == entries.len(),
            copy_views(r@) == copies_of(
                config_dir@,
                backup_root@,
                entry_views(entries@).subrange(0, i as int),
                present@.subrange(0, i as int),
            ),
        decreases entries.len() - i,
    {
        let ghost prev = r@;
        proof {
            assert(entry_views(entries@).subrange(0, i + 1).drop_last() =~= entry_views(
                entries@,
            ).subrange(0, i as int));
            assert(present@.subrange(0, i + 1).drop_last() =~= present@.subrange(0, i as int));
        }
        if present[i] {
            let rel = entries[i].relative.as_str();
            let from = join_path(config_dir, rel);
            let to = join_path(backup_root, rel);
            r.push(BackupCopy { from, to });
            assert(copy_views(r@) =~= copy_views(prev).push((from@, to@)));
        }
        i = i + 1;
    }
    assert(entry_views(entries@).subrange(0, entries.len() as int) =~= entry_views(entries@));
    assert(present@.subrange(0, entries.len() as int) =~= present@);
    r
}

/// The line that reports a link an update would create in place of an
/// existing file.
pub open spec fn preview_line(link: (Seq<char>, Seq<char>)) -> Seq<char> {
    "Would create symlink: "@ + link.0 + " -> "@ + link.1
}

/// The lines of a preview: one for each link whose destination exists
/// (`present`), in the order of the links.
pub open spec fn preview_lines(links: Seq<(Seq<char>, Seq<char>)>, present: Seq<bool>) -> Seq<
    Seq<char>,
>
    decreases links.len(),
{
    if links.len() == 0 || present.len() == 0 {
        seq![]
    } else {
        let rest = preview_lines(links.drop_last(), present.drop_last());
        if present.last() {
            rest.push(preview_line(links.last()))
        } else {
            rest
        }
    }
}

/// The report of a preview (see `preview_lines`); `present[i]` tells whether
/// the destination of `links[i]` exists.
pub fn preview_report(links: &Vec<Link>, present: &Vec<bool>) -> (r: Vec<String>)
    requires
        present.len() == links.len(),
    ensures
        str_views(r@) == preview_lines(link_views(links@), present@),
{
    let mut r: Vec<String> = Vec::new();
    let mut i: usize = 0;
    while i < links.len()
        invariant
            i <= links.len(),
            present.len() == links.len(),
            str_views(r@) == preview_lines(
                link_views(links@).subrange(0, i as int),
                present@.subrange(0, i as int),
            ),
        decreases links.len() - i,
    {
        let ghost prev = r@;
        proof {
            assert(link_views(links@).subrange(0, i + 1).drop_last() =~= link_views(
                links@,
            ).subrange(0, i as int));
            assert(present@.subrange(0, i + 1).drop_last() =~= present@.subrange(0, i as int));
        }
        if present[i] {
            let mut line = "Would create symlink: ".to_owned();
            line.append(links[i].source.as_str());
            line.append(" -> ");
            line.append(links[i].dest.as_str());
            r.push(line);
            assert(str_views(r@) =~= str_views(prev).push(line@));
        }
        i = i + 1;
    }
    assert(link_views(links@).subrange(0, links.len() as int) =~= link_views(links@));
    assert(present@.subrange(0, links.len() as int) =~= present@);
    r
}

/// Fails with `PreviewTargetMissing` where the module directory at
/// `module_dir` does not exist; `exists` tells whether it does.
pub fn ensure_exists(module_dir: &str, exists: bool) -> (r: Result<(), ProfileError>)
    ensures
        exists ==> r is Ok,
        !exists ==> (r matches Err(ProfileError::PreviewTargetMissing(p)) && p@ == module_dir@),
{
    if exists {
        Ok(())
    } else {
        Err(ProfileError::PreviewTargetMissing(module_dir.to_owned()))
    }
}

/// What a run does with a module: `Ok(true)` to process it, `Ok(false)` to
/// pass over it, an error to stop. A missing module directory is passed over
/// by an update or a backup, and stops a preview.
pub fn module_decision(action: ProfileAction, module_dir: &str, exists: bool) -> (r: Result<
    bool,
    ProfileError,
>)
    ensures
        exists ==> r == Ok::<bool, ProfileError>(true),
        !exists && action != ProfileAction::Preview ==> r == Ok::<bool, ProfileError>(false),
        !exists && action == ProfileAction::Preview ==> (r matches Err(
            ProfileError::PreviewTargetMissing(p),
        ) && p@ == module_dir@),
{
    match action {
        ProfileAction::Preview => match ensure_exists(module_dir, exists) {
            Ok(()) => Ok(true),
            Err(e) => Err(e),
        },
        _ => Ok(exists),
    }
}

/// A character that a timestamp may hold: a digit, or `-`, `_`, `:` and the
/// `+` of a year past 9999.
pub open spec fn is_timestamp_char(c: char) -> bool {
    ('0' <= c && c <= '9') || c == '-' || c == '_' || c == ':' || c == '+'
}

/// A timestamp written `<year>-MM-DD_HH:MM:SS`, the year in four digits or
/// more: at least 19 characters, none of them a `/`.
pub open spec fn is_timestamp(t: Seq<char>) -> bool {
    &&& t.len() >= 19
    &&& forall|i: int| 0 <= i < t.len() ==> is_timestamp_char(#[trigger] t[i])
    &&& t[t.len() - 15] == '-'
    &&& t[t.len() - 12] == '-'
    &&& t[t.len() - 9] == '_'
    &&& t[t.len() - 6] == ':'
    &&& t[t.len() - 3] == ':'
}

/// Relies on dirs::cache_dir: the cache directory of the user, where the
/// platform knows one. It depends on the environment; a directory it gives
/// is never empty (an absolute `$XDG_CACHE_HOME`, or a path joined onto the
/// home directory).
#[verifier::external_body]
fn cache_dir() -> (r: Option<String>)
    ensures
        r matches Some(c) ==> c@.len() > 0,
{
    match dirs::cache_dir() {
        Some(d) => Some(d.display().to_string()),
        None => None,
    }
}

/// Relies on chrono's `Local::now` and `format`: the local time now, written
/// `YYYY-MM-DD_HH:MM:SS`. The time depends on the clock; the shape does not
/// (a year outside 0 to 9999 gets a sign and more digits).
#[verifier::external_body]
fn local_timestamp() -> (r: String)
    ensures
        is_timestamp(r@),
{
    chrono::Local::now().format("%Y-%m-%d_%H:%M:%S").to_string()
}

/// The directory that a backup fills: `dotswitch/<timestamp>` under the cache
/// directory, or under `.cache` of the configuration directory where no
/// cache directory is known.
pub open spec fn backup_root_of(
    cache: Option<Seq<char>>,
    config_dir: Seq<char>,
    timestamp: Seq<char>,
) -> Seq<char> {
    let base = match cache {
        Some(c) => c,
        None => joined(config_dir, ".cache"@),
    };
    joined(joined(base, "dotswitch"@), timestamp)
}

pub open spec fn opt_view(o: Option<String>) -> Option<Seq<char>> {
    match o {
        Some(s) => Some(s@),
        None => None,
    }
}

/// The directory that a backup fills (see `backup_root_of`).
pub fn backup_root(cache: Option<String>, config_dir: &str, timestamp: &str) -> (r: String)
    ensures
        r@ == backup_root_of(opt_view(cache), config_dir@, timestamp@),
{
    let base = match cache {
        Some(c) => c,
        None => join_path(config_dir, ".cache"),
    };
    let app_dir = join_path(base.as_str(), "dotswitch");
    join_path(app_dir.as_str(), timestamp)
}

/// `r` is the directory of a backup made at some time `t` with some cache
/// directory, not empty where one is known.
pub open spec fn is_backup_root(r: Seq<char>, config_dir: Seq<char>) -> bool {
    exists|cache: Option<Seq<char>>, t: Seq<char>|
        is_timestamp(t) && (cache matches Some(c) ==> c.len() > 0) && r == #[trigger] backup_root_of(
            cache,
            config_dir,
            t,
        )
}

/// The directory for a backup made now; computed once for a run, so that
/// every module of a run lands in the same directory.
pub fn new_backup_root(config_dir: &str) -> (r: String)
    ensures
        is_backup_root(r@, config_dir@),
{
    let cache = cache_dir();
    let ghost c = opt_view(cache);
    let t = local_timestamp();
    let r = backup_root(cache, config_dir, t.as_str());
    assert(r@ == backup_root_of(c, config_dir@, t@));
    r
}

/// The places that one run works with.
pub struct Run {
    pub action: ProfileAction,
    /// The configuration directory that the files are linked into.
    pub config_dir: String,
    /// The directory of the profile.
    pub base: String,
    /// The directory that a backup fills; only a backup has one.
    pub backup_root: Option<String>,
}

impl Run {
    /// The run of `action` on the profile `profile` for the user whose home
    /// directory is `home`: files go under `home/.config`, the profile lies
    /// under the configured profiles directory, and a backup gets one
    /// timestamped directory for all of its modules.
    pub fn new(action: ProfileAction, home: &str, config: &Config, profile: &str) -> (r: Run)
        ensures
            r.action == action,
            r.config_dir@ == joined(home@, ".config"@),
            r.base@ == joined(config.profiles_path@, profile@),
            action == ProfileAction::Backup ==> (r.backup_root matches Some(b) && is_backup_root(
                b@,
                r.config_dir@,
            )),
            action != ProfileAction::Backup ==> r.backup_root is None,
    {
        let config_dir = join_path(home, ".config");
        let base = join_path(config.profiles_path.as_str(), profile);
        let backup_root = match action {
            ProfileAction::Backup => Some(new_backup_root(config_dir.as_str())),
            _ => None,
        };
        Run { action, config_dir, base, backup_root }
    }

    /// The directory of the module `module` of the profile.
    pub fn module_dir(&self, module: &str) -> (r: String)
        ensures
            r@ == joined(self.base@, module@),
    {
        join_path(self.base.as_str(), module)
    }
}

} // verus!
