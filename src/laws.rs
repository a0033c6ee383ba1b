//! What holds of the plans across calls and runs, over a model of the
//! configuration directory as a map from each link's place to its target.
use vstd::prelude::*;

use crate::paths::joined;
use crate::profiles::{copies_of, dir_prefix, links_of, relative_to, selected};

verus! {

/// The links in place after `links` are created in order, starting from
/// `state`: a link replaces whatever stood at its place.
pub open spec fn apply_links(
    state: Map<Seq<char>, Seq<char>>,
    links: Seq<(Seq<char>, Seq<char>)>,
) -> Map<Seq<char>, Seq<char>>
    decreases links.len(),
{
    if links.len() == 0 {
        state
    } else {
        apply_links(state, links.drop_last()).insert(links.last().1, links.last().0)
    }
}

/// A path relative to a directory: not empty, and not absolute.
pub open spec fn is_relative(rel: Seq<char>) -> bool {
    rel.len() > 0 && rel[0] != '/'
}

proof fn lemma_apply_union(state: Map<Seq<char>, Seq<char>>, links: Seq<(Seq<char>, Seq<char>)>)
    ensures
        apply_links(state, links) == state.union_prefer_right(apply_links(Map::empty(), links)),
    decreases links.len(),
{
    if links.len() == 0 {
        assert(state =~= state.union_prefer_right(Map::empty()));
    } else {
        lemma_apply_union(state, links.drop_last());
        lemma_apply_union(Map::empty(), links.drop_last());
        assert(apply_links(state, links) =~= state.union_prefer_right(
            apply_links(Map::empty(), links),
        ));
    }
}

proof fn lemma_apply_at(
    state: Map<Seq<char>, Seq<char>>,
    links: Seq<(Seq<char>, Seq<char>)>,
    dest: Seq<char>,
    source: Seq<char>,
)
    requires
        exists|k: int| 0 <= k < links.len() && links[k].1 == dest,
        forall|k: int| 0 <= k < links.len() && links[k].1 == dest ==> links[k].0 == source,
    ensures
        apply_links(state, links).contains_key(dest),
        apply_links(state, links)[dest] == source,
    decreases links.len(),
{
    if links.last().1 != dest {
        let k = choose|k: int| 0 <= k < links.len() && links[k].1 == dest;
        let init = links.drop_last();
        assert(init[k].1 == dest);
        assert forall|j: int| 0 <= j < init.len() && init[j].1 == dest implies init[j].0
            == source by {
            assert(links[j] == init[j]);
        }
        lemma_apply_at(state, init, dest, source);
    }
}

proof fn lemma_relative_is_relative(root: Seq<char>, path: Seq<char>)
    requires
        relative_to(root, path) is Some,
    ensures
        is_relative(relative_to(root, path)->0),
        path == dir_prefix(root) + relative_to(root, path)->0,
{
    let p = dir_prefix(root);
    assert(path =~= path.subrange(0, p.len() as int) + path.skip(p.len() as int));
}

proof fn lemma_joined_injective(dir: Seq<char>, a: Seq<char>, b: Seq<char>)
    requires
        is_relative(a),
        is_relative(b),
        joined(dir, a) == joined(dir, b),
    ensures
        a == b,
{
    let p = if dir.len() == 0 {
        dir
    } else if dir.last() == '/' {
        dir
    } else {
        dir + seq!['/']
    };
    assert(joined(dir, a) =~= p + a);
    assert(joined(dir, b) =~= p + b);
    assert((p + a).skip(p.len() as int) =~= a);
    assert((p + b).skip(p.len() as int) =~= b);
}

proof fn lemma_selected_entries(root: Seq<char>, files: Seq<Seq<char>>, ignored: Seq<Seq<char>>)
    ensures
        forall|k: int|
            0 <= k < selected(root, files, ignored).len() ==> relative_to(
                root,
                (#[trigger] selected(root, files, ignored)[k]).0,
            ) == Some(selected(root, files, ignored)[k].1) && !ignored.contains(
                selected(root, files, ignored)[k].1,
            ),
        forall|i: int|
            #![trigger files[i]]
            0 <= i < files.len() && relative_to(root, files[i]) is Some && !ignored.contains(
                relative_to(root, files[i])->0,
            ) ==> selected(root, files, ignored).contains(
                (files[i], relative_to(root, files[i])->0),
            ),
    decreases files.len(),
{
    if files.len() > 0 {
        let init = files.drop_last();
        lemma_selected_entries(root, init, ignored);
        let s0 = selected(root, init, ignored);
        let s = selected(root, files, ignored);
        assert forall|i: int|
            #![trigger files[i]]
            0 <= i < files.len() && relative_to(root, files[i]) is Some && !ignored.contains(
                relative_to(root, files[i])->0,
            ) implies s.contains((files[i], relative_to(root, files[i])->0)) by {
            let e = (files[i], relative_to(root, files[i])->0);
            if i < files.len() - 1 {
                assert(init[i] == files[i]);
                let k = choose|k: int| 0 <= k < s0.len() && s0[k] == e;
                assert(s[k] == e);
            } else {
                assert(s[s0.len() as int] == e);
            }
        }
    }
}

proof fn lemma_links_of(config_dir: Seq<char>, entries: Seq<(Seq<char>, Seq<char>)>)
    ensures
        links_of(config_dir, entries).len() == entries.len(),
        forall|k: int|
            0 <= k < entries.len() ==> #[trigger] links_of(config_dir, entries)[k] == (
                entries[k].0,
                joined(config_dir, entries[k].1),
            ),
{
}

/// Updating from a module links every file of it that takes part: after the
/// links of the module's entries are created, whatever stood there before,
/// the place of each file strictly beneath the module root whose relative
/// path is not ignored points at that file.
pub proof fn update_links_every_file(
    state: Map<Seq<char>, Seq<char>>,
    config_dir: Seq<char>,
    root: Seq<char>,
    files: Seq<Seq<char>>,
    ignored: Seq<Seq<char>>,
    i: int,
)
    requires
        0 <= i < files.len(),
        relative_to(root, files[i]) is Some,
        !ignored.contains(relative_to(root, files[i])->0),
    ensures
        apply_links(state, links_of(config_dir, selected(root, files, ignored))).contains_key(
            joined(config_dir, relative_to(root, files[i])->0),
        ),
        apply_links(state, links_of(config_dir, selected(root, files, ignored)))[joined(
            config_dir,
            relative_to(root, files[i])->0,
        )] == files[i],
{
    let rel = relative_to(root, files[i])->0;
    let es = selected(root, files, ignored);
    let ls = links_of(config_dir, es);
    let dest = joined(config_dir, rel);
    lemma_selected_entries(root, files, ignored);
    lemma_links_of(config_dir, es);
    lemma_relative_is_relative(root, files[i]);
    let k = choose|k: int| 0 <= k < es.len() && es[k] == (files[i], rel);
    assert(ls[k].1 == dest);
    assert forall|j: int| 0 <= j < ls.len() && ls[j].1 == dest implies ls[j].0 == files[i] by {
        assert(relative_to(root, es[j].0) == Some(es[j].1));
        lemma_relative_is_relative(root, es[j].0);
        lemma_joined_injective(config_dir, es[j].1, rel);
    }
    lemma_apply_at(state, ls, dest, files[i]);
}

/// Creating the same links twice leaves what creating them once leaves.
pub proof fn update_is_idempotent(
    state: Map<Seq<char>, Seq<char>>,
    links: Seq<(Seq<char>, Seq<char>)>,
)
    ensures
        apply_links(apply_links(state, links), links) == apply_links(state, links),
{
    let a = apply_links(Map::empty(), links);
    lemma_apply_union(state, links);
    lemma_apply_union(apply_links(state, links), links);
    assert(state.union_prefer_right(a).union_prefer_right(a) =~= state.union_prefer_right(a));
}

/// Of two modules updated one after the other, the later one wins: where the
/// later module (root `root`, files `files`) has a file that takes part, its
/// place under the configuration directory points at that file, whatever the
/// earlier module linked there.
pub proof fn later_module_wins(
    state: Map<Seq<char>, Seq<char>>,
    config_dir: Seq<char>,
    first: Seq<(Seq<char>, Seq<char>)>,
    root: Seq<char>,
    files: Seq<Seq<char>>,
    ignored: Seq<Seq<char>>,
    i: int,
)
    requires
        0 <= i < selected(root, files, ignored).len(),
    ensures
        apply_links(
            apply_links(state, links_of(config_dir, first)),
            links_of(config_dir, selected(root, files, ignored)),
        ).contains_key(joined(config_dir, selected(root, files, ignored)[i].1)),
        apply_links(
            apply_links(state, links_of(config_dir, first)),
            links_of(config_dir, selected(root, files, ignored)),
        )[joined(config_dir, selected(root, files, ignored)[i].1)] == selected(
            root,
            files,
            ignored,
        )[i].0,
{
    let second = selected(root, files, ignored);
    let ls = links_of(config_dir, second);
    let dest = joined(config_dir, second[i].1);
    lemma_selected_entries(root, files, ignored);
    lemma_links_of(config_dir, second);
    lemma_relative_is_relative(root, second[i].0);
    assert(ls[i].1 == dest);
    assert forall|j: int| 0 <= j < ls.len() && ls[j].1 == dest implies ls[j].0 == second[i].0 by {
        lemma_relative_is_relative(root, second[j].0);
        lemma_joined_injective(config_dir, second[j].1, second[i].1);
    }
    lemma_apply_at(apply_links(state, links_of(config_dir, first)), ls, dest, second[i].0);
}

/// `copy` is the copy of the destination of a present entry.
pub open spec fn copied_entry(
    config_dir: Seq<char>,
    backup_root: Seq<char>,
    entries: Seq<(Seq<char>, Seq<char>)>,
    present: Seq<bool>,
    copy: (Seq<char>, Seq<char>),
) -> bool {
    exists|j: int|
        0 <= j < entries.len() && present[j] && copy == (
            joined(config_dir, #[trigger] entries[j].1),
            joined(backup_root, entries[j].1),
        )
}

proof fn lemma_copies_of(
    config_dir: Seq<char>,
    backup_root: Seq<char>,
    entries: Seq<(Seq<char>, Seq<char>)>,
    present: Seq<bool>,
)
    requires
        present.len() == entries.len(),
    ensures
        forall|k: int|
            0 <= k < copies_of(config_dir, backup_root, entries, present).len() ==> copied_entry(
                config_dir,
                backup_root,
                entries,
                present,
                #[trigger] copies_of(config_dir, backup_root, entries, present)[k],
            ),
        forall|j: int|
            0 <= j < entries.len() && #[trigger] present[j] ==> copies_of(
                config_dir,
                backup_root,
                entries,
                present,
            ).contains((joined(config_dir, entries[j].1), joined(backup_root, entries[j].1))),
    decreases entries.len(),
{
    if entries.len() > 0 {
        let ei = entries.drop_last();
        let pi = present.drop_last();
        lemma_copies_of(config_dir, backup_root, ei, pi);
        let c0 = copies_of(config_dir, backup_root, ei, pi);
        let c = copies_of(config_dir, backup_root, entries, present);
        assert forall|k: int| 0 <= k < c.len() implies copied_entry(
            config_dir,
            backup_root,
            entries,
            present,
            #[trigger] c[k],
        ) by {
            if k < c0.len() {
                assert(copied_entry(config_dir, backup_root, ei, pi, c0[k]));
                let j = choose|j: int|
                    0 <= j < ei.len() && pi[j] && c0[k] == (
                        joined(config_dir, #[trigger] ei[j].1),
                        joined(backup_root, ei[j].1),
                    );
                assert(c[k] == c0[k]);
                assert(entries[j] == ei[j]);
            } else {
                let j = entries.len() - 1;
                assert(c[k] == (joined(config_dir, entries[j].1), joined(backup_root, entries[j].1)));
            }
        }
        assert forall|j: int| 0 <= j < entries.len() && #[trigger] present[j] implies c.contains(
            (joined(config_dir, entries[j].1), joined(backup_root, entries[j].1)),
        ) by {
            let e = (joined(config_dir, entries[j].1), joined(backup_root, entries[j].1));
            if j < entries.len() - 1 {
                assert(pi[j] == present[j] && ei[j] == entries[j]);
                let k = choose|k: int| 0 <= k < c0.len() && c0[k] == e;
                assert(c[k] == e);
            } else {
                assert(c[c0.len() as int] == e);
            }
        }
    }
}

/// A backup copies the destination of a file of a module exactly where it
/// exists: with `existing` the paths that exist before the backup and
/// `present` read from it, the destination of a file that takes part is
/// copied to its relative path under the backup root if it exists, and
/// nothing is copied to that path if it does not.
pub proof fn backup_copies_exactly_present(
    config_dir: Seq<char>,
    backup_root: Seq<char>,
    root: Seq<char>,
    files: Seq<Seq<char>>,
    ignored: Seq<Seq<char>>,
    existing: Set<Seq<char>>,
    present: Seq<bool>,
    i: int,
)
    requires
        present.len() == selected(root, files, ignored).len(),
        forall|k: int|
            0 <= k < present.len() ==> #[trigger] present[k] == existing.contains(
                joined(config_dir, selected(root, files, ignored)[k].1),
            ),
        0 <= i < selected(root, files, ignored).len(),
    ensures
        existing.contains(joined(config_dir, selected(root, files, ignored)[i].1)) ==> copies_of(
            config_dir,
            backup_root,
            selected(root, files, ignored),
            present,
        ).contains(
            (
                joined(config_dir, selected(root, files, ignored)[i].1),
                joined(backup_root, selected(root, files, ignored)[i].1),
            ),
        ),
        !existing.contains(joined(config_dir, selected(root, files, ignored)[i].1)) ==> forall|
            k: int,
        |
            0 <= k < copies_of(
                config_dir,
                backup_root,
                selected(root, files, ignored),
                present,
            ).len() ==> #[trigger] copies_of(
                config_dir,
                backup_root,
                selected(root, files, ignored),
                present,
            )[k].1 != joined(backup_root, selected(root, files, ignored)[i].1),
{
    let es = selected(root, files, ignored);
    lemma_selected_entries(root, files, ignored);
    lemma_copies_of(config_dir, backup_root, es, present);
    let c = copies_of(config_dir, backup_root, es, present);
    assert(present[i] == existing.contains(joined(config_dir, es[i].1)));
    if !present[i] {
        assert forall|k: int| 0 <= k < c.len() implies #[trigger] c[k].1 != joined(
            backup_root,
            es[i].1,
        ) by {
            assert(copied_entry(config_dir, backup_root, es, present, c[k]));
            let j = choose|j: int|
                0 <= j < es.len() && present[j] && c[k] == (
                    joined(config_dir, #[trigger] es[j].1),
                    joined(backup_root, es[j].1),
                );
            if c[k].1 == joined(backup_root, es[i].1) {
                lemma_relative_is_relative(root, es[i].0);
                lemma_relative_is_relative(root, es[j].0);
                lemma_joined_injective(backup_root, es[j].1, es[i].1);
                assert(present[j] == existing.contains(joined(config_dir, es[j].1)));
            }
        }
    }
}

/// An ignored name at the module root is never linked and never backed up:
/// no link of an update, and no copy of a backup, has that name's place
/// under the configuration directory or under the backup root.
pub proof fn ignored_script_never_touched(
    config_dir: Seq<char>,
    backup_root: Seq<char>,
    root: Seq<char>,
    files: Seq<Seq<char>>,
    ignored: Seq<Seq<char>>,
    present: Seq<bool>,
)
    requires
        ignored.contains("script.sh"@),
        present.len() == selected(root, files, ignored).len(),
    ensures
        forall|k: int|
            0 <= k < selected(root, files, ignored).len() ==> #[trigger] links_of(
                config_dir,
                selected(root, files, ignored),
            )[k].1 != joined(config_dir, "script.sh"@),
        forall|k: int|
            0 <= k < copies_of(
                config_dir,
                backup_root,
                selected(root, files, ignored),
                present,
            ).len() ==> #[trigger] copies_of(
                config_dir,
                backup_root,
                selected(root, files, ignored),
                present,
            )[k] != (joined(config_dir, "script.sh"@), joined(backup_root, "script.sh"@))
                && copies_of(config_dir, backup_root, selected(root, files, ignored), present)[k].1
                != joined(backup_root, "script.sh"@),
{
    reveal_strlit("script.sh");
    let name = "script.sh"@;
    assert(is_relative(name));
    let es = selected(root, files, ignored);
    lemma_selected_entries(root, files, ignored);
    lemma_links_of(config_dir, es);
    lemma_copies_of(config_dir, backup_root, es, present);
    assert forall|k: int| 0 <= k < es.len() implies #[trigger] links_of(config_dir, es)[k].1
        != joined(config_dir, name) by {
        lemma_relative_is_relative(root, es[k].0);
        if es[k].1 == name {
            assert(ignored.contains(es[k].1));
        }
        if links_of(config_dir, es)[k].1 == joined(config_dir, name) {
            lemma_joined_injective(config_dir, es[k].1, name);
        }
    }
    let c = copies_of(config_dir, backup_root, es, present);
    assert forall|k: int| 0 <= k < c.len() implies #[trigger] c[k] != (
        joined(config_dir, name),
        joined(backup_root, name),
    ) && c[k].1 != joined(backup_root, name) by {
        let j = choose|j: int|
            0 <= j < es.len() && present[j] && c[k] == (
                joined(config_dir, #[trigger] es[j].1),
                joined(backup_root, es[j].1),
            );
        lemma_relative_is_relative(root, es[j].0);
        if es[j].1 == name {
            assert(ignored.contains(es[j].1));
        }
        if c[k].1 == joined(backup_root, name) {
            lemma_joined_injective(backup_root, es[j].1, name);
        }
    }
}

/// The links in place after the plans of several modules are carried out one
/// module after the other, starting from `state`.
pub open spec fn apply_plans(
    state: Map<Seq<char>, Seq<char>>,
    plans: Seq<Seq<(Seq<char>, Seq<char>)>>,
) -> Map<Seq<char>, Seq<char>>
    decreases plans.len(),
{
    if plans.len() == 0 {
        state
    } else {
        apply_links(apply_plans(state, plans.drop_last()), plans.last())
    }
}

proof fn lemma_apply_concat(
    state: Map<Seq<char>, Seq<char>>,
    a: Seq<(Seq<char>, Seq<char>)>,
    b: Seq<(Seq<char>, Seq<char>)>,
)
    ensures
        apply_links(state, a + b) == apply_links(apply_links(state, a), b),
    decreases b.len(),
{
    if b.len() == 0 {
        assert(a + b =~= a);
    } else {
        assert((a + b).drop_last() =~= a + b.drop_last());
        lemma_apply_concat(state, a, b.drop_last());
    }
}

/// Carrying out the plans of several modules one after the other leaves
/// what carrying out all their links in one sequence leaves.
pub proof fn plans_in_a_row_are_one_plan(
    state: Map<Seq<char>, Seq<char>>,
    plans: Seq<Seq<(Seq<char>, Seq<char>)>>,
)
    ensures
        apply_plans(state, plans) == apply_links(state, plans.flatten()),
    decreases plans.len(),
{
    if plans.len() == 0 {
    } else {
        plans_in_a_row_are_one_plan(state, plans.drop_last());
        assert(plans.flatten() =~= plans.drop_last().flatten() + plans.last()) by {
            plans.drop_last().lemma_flatten_push(plans.last());
            assert(plans.drop_last().push(plans.last()) =~= plans);
        }
        lemma_apply_concat(state, plans.drop_last().flatten(), plans.last());
    }
}

/// Updating with the same modules twice leaves what updating once leaves:
/// carrying out the plans of all the modules a second time changes no link.
pub proof fn update_run_is_idempotent(
    state: Map<Seq<char>, Seq<char>>,
    plans: Seq<Seq<(Seq<char>, Seq<char>)>>,
)
    ensures
        apply_plans(apply_plans(state, plans), plans) == apply_plans(state, plans),
{
    plans_in_a_row_are_one_plan(state, plans);
    plans_in_a_row_are_one_plan(apply_plans(state, plans), plans);
    update_is_idempotent(state, plans.flatten());
}

} // verus!
