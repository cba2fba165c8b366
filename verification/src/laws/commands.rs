//! The commands of the user: what they change in the registry, what they ask
//! and show, and what they remove.
use crate::cli;
use crate::cli::{Confirm, PrunePlan, RegisterStep, StatusRow};
use crate::devenv::ProjectName;
use crate::doctor;
use crate::doctor::{Check, Report, ToolRun};
use crate::ipc;
use crate::ipc::{ProjectRuntime, Response};
use crate::laws::messages;
use crate::laws::session;
use crate::laws::startup;
use crate::laws::texts;
use crate::paths;
use crate::refresh;
use crate::registry;
use crate::registry::{Project, Registry};
use crate::style;
use crate::text;
use crate::words;
use vstd::prelude::*;
use vstd::string::*;

verus! {

// ---------------------------------------------------------------------------
// The registry
// ---------------------------------------------------------------------------
/// Whether no registered project has that name.
pub open spec fn is_free(list: Seq<Project>, name: Seq<char>) -> bool {
    forall|j: int| 0 <= j < list.len() ==> (#[trigger] list[j]).name@ != name
}

proof fn lemma_is_free(list: Registry, name: Seq<char>)
    ensures
        is_free(list.projects@, name) <==> !registry::has_name(list@, name),
{
    let all = list@;
    assert(all.len() == list.projects@.len());
    assert(forall|j: int| 0 <= j < all.len() ==> #[trigger] all[j] == list.projects@[j]@);
    if registry::has_name(all, name) {
        let j = choose|j: int| 0 <= j < all.len() && (#[trigger] all[j]).name == name;
        assert(list.projects@[j].name@ == name);
    } else {
        assert forall|j: int| 0 <= j < list.projects@.len() implies (
        #[trigger] list.projects@[j]).name@ != name by {
            assert(all[j].name == list.projects@[j].name@);
        }
    }
}

/// A project is found under its name if one is registered, and it is the
/// first of that name.
pub proof fn found_in_the_registry(
    list: &Registry,
    name: &str,
    r: Option<&Project>,
    path: Result<String, String>,
    i: int,
)
    requires
        call_ensures(Registry::get, (list, name), r),
        call_ensures(cli::project_path, (list, name), path),
    ensures
        r is None <==> is_free(list.projects@, name@),
        path is Err <==> is_free(list.projects@, name@),
        startup::first_of(list.projects@, name@, i) ==> (r matches Some(p) && p.name@ == name@
            && p.path@ == list.projects@[i].path@),
        startup::first_of(list.projects@, name@, i) ==> (path matches Ok(p) && p@
            == list.projects@[i].path@),
{
    lemma_is_free(*list, name@);
    startup::lemma_first_of(*list, name@, i);
    let all = list@;
    if let Some(p) = r {
        let k = choose|k: int| #[trigger]
            registry::is_first(all, name@, k) && p@ == all[k];
        assert(all[k].name == name@);
        assert(registry::has_name(all, name@));
        if startup::first_of(list.projects@, name@, i) {
            assert(k == i);
            assert(all[i] == list.projects@[i]@);
        }
    }
    if let Ok(p) = path {
        let k = choose|k: int| #[trigger]
            registry::is_first(all, name@, k) && p@ == all[k].path;
        assert(all[k].name == name@);
        assert(registry::has_name(all, name@));
        if startup::first_of(list.projects@, name@, i) {
            assert(k == i);
            assert(all[i] == list.projects@[i]@);
        }
    }
    if startup::first_of(list.projects@, name@, i) {
        assert(all[i].name == name@);
        assert(registry::has_name(all, name@));
    }
}

/// A project is added behind the others if its name is free, and nothing
/// changes if it is not.
pub proof fn added_to_the_registry(list: &mut Registry, project: Project, r: Result<(), String>)
    requires
        call_ensures(Registry::add, (list, project), r),
    ensures
        r is Ok <==> is_free(old(list).projects@, project.name@),
        r is Ok ==> messages::same_list(
            final(list).projects@,
            old(list).projects@.push(project),
        ),
        r matches Err(m) ==> messages::same_list(final(list).projects@, old(list).projects@) && m@
            == "project `"@ + project.name@ + "` is already registered"@,
{
    lemma_is_free(*old(list), project.name@);
    if r is Ok {
        assert(registry::entries(old(list).projects@.push(project)) == old(list)@.push(project@));
        messages::lemma_same_list(final(list).projects@, old(list).projects@.push(project));
    } else {
        messages::lemma_same_list(final(list).projects@, old(list).projects@);
    }
}

/// A project takes the place of the first of its name, which is handed back,
/// or comes behind the others; no other project changes.
pub proof fn put_into_the_registry(
    list: &mut Registry,
    project: Project,
    r: Option<Project>,
    i: int,
)
    requires
        call_ensures(Registry::upsert, (list, project), r),
    ensures
        r is None <==> is_free(old(list).projects@, project.name@),
        r is None ==> messages::same_list(
            final(list).projects@,
            old(list).projects@.push(project),
        ),
        startup::first_of(old(list).projects@, project.name@, i) ==> messages::same_list(
            final(list).projects@,
            old(list).projects@.update(i, project),
        ) && (r matches Some(p) && p.name@ == project.name@ && p.path@ == old(
            list,
        ).projects@[i].path@),
{
    let all = old(list)@;
    lemma_is_free(*old(list), project.name@);
    startup::lemma_first_of(*old(list), project.name@, i);
    if r is None {
        assert(registry::entries(old(list).projects@.push(project)) == all.push(project@));
        messages::lemma_same_list(final(list).projects@, old(list).projects@.push(project));
    }
    if let Some(p) = r {
        let k = choose|k: int|
            #[trigger] registry::is_first(all, project@.name, k) && p@ == all[k] && final(list)@
                == all.update(k, project@);
        assert(all[k].name == project@.name);
        if startup::first_of(old(list).projects@, project.name@, i) {
            assert(k == i);
            assert(all[i] == old(list).projects@[i]@);
            assert(registry::entries(old(list).projects@.update(i, project)) == all.update(
                i,
                project@,
            ));
            messages::lemma_same_list(
                final(list).projects@,
                old(list).projects@.update(i, project),
            );
        }
    } else if startup::first_of(old(list).projects@, project.name@, i) {
        assert(old(list).projects@[i].name@ == project.name@);
    }
}

/// The first project of a name is taken out and handed back, and no other is;
/// where there is none nothing changes.
pub proof fn taken_out_of_the_registry(
    list: &mut Registry,
    name: &str,
    r: Result<Project, String>,
    i: int,
)
    requires
        call_ensures(Registry::remove, (list, name), r),
    ensures
        r is Err <==> is_free(old(list).projects@, name@),
        r is Err ==> messages::same_list(final(list).projects@, old(list).projects@),
        startup::first_of(old(list).projects@, name@, i) ==> messages::same_list(
            final(list).projects@,
            old(list).projects@.remove(i),
        ) && (r matches Ok(p) && p.name@ == name@ && p.path@ == old(list).projects@[i].path@),
{
    let all = old(list)@;
    lemma_is_free(*old(list), name@);
    startup::lemma_first_of(*old(list), name@, i);
    if r is Err {
        messages::lemma_same_list(final(list).projects@, old(list).projects@);
        if startup::first_of(old(list).projects@, name@, i) {
            assert(old(list).projects@[i].name@ == name@);
        }
    }
    if let Ok(p) = r {
        let k = choose|k: int|
            #[trigger] registry::is_first(all, name@, k) && p@ == all[k] && final(list)@
                == all.remove(k);
        assert(all[k].name == name@);
        if startup::first_of(old(list).projects@, name@, i) {
            assert(k == i);
            assert(all[i] == old(list).projects@[i]@);
            assert(registry::entries(old(list).projects@.remove(i)) == all.remove(i));
            messages::lemma_same_list(final(list).projects@, old(list).projects@.remove(i));
        }
    }
}

/// Whether a project of that name and path is in a list.
pub open spec fn lists(list: Seq<Project>, name: Seq<char>, path: Seq<char>) -> bool {
    exists|i: int|
        0 <= i < list.len() && (#[trigger] list[i]).name@ == name && list[i].path@ == path
}

/// Whether such a project is in a list with the given flag.
pub open spec fn lists_flagged(
    list: Seq<Project>,
    flags: Seq<bool>,
    name: Seq<char>,
    path: Seq<char>,
    flag: bool,
) -> bool {
    exists|i: int|
        0 <= i < list.len() && (#[trigger] list[i]).name@ == name && list[i].path@ == path
            && flags[i] == flag
}

proof fn lemma_lists(list: Seq<Project>, name: Seq<char>, path: Seq<char>)
    ensures
        lists(list, name, path) <==> registry::entries(list).contains(
            (registry::Entry { name, path }),
        ),
{
    let all = registry::entries(list);
    let e = registry::Entry { name, path };
    if lists(list, name, path) {
        let i = choose|i: int|
            0 <= i < list.len() && (#[trigger] list[i]).name@ == name && list[i].path@ == path;
        assert(all[i] == e);
    }
    if all.contains(e) {
        let i = all.index_of(e);
        assert(all[i] == list[i]@);
        assert(list[i].name@ == name);
    }
}

proof fn lemma_select(
    list: Seq<Project>,
    flags: Seq<bool>,
    name: Seq<char>,
    path: Seq<char>,
    flag: bool,
)
    requires
        flags.len() >= list.len(),
    ensures
        registry::select(registry::entries(list), flags, flag).contains(
            (registry::Entry { name, path }),
        ) <==> lists_flagged(list, flags, name, path, flag),
    decreases list.len(),
{
    let all = registry::entries(list);
    let e = registry::Entry { name, path };
    let now = registry::select(all, flags, flag);
    if list.len() > 0 {
        let front = list.drop_last();
        let n = list.len() - 1;
        assert(registry::entries(front) == all.drop_last());
        lemma_select(front, flags, name, path, flag);
        let rest = registry::select(all.drop_last(), flags, flag);
        assert(all.last() == list[n]@);
        if rest.contains(e) {
            let k = rest.index_of(e);
            assert(now[k] == e);
            let i = choose|i: int|
                0 <= i < front.len() && (#[trigger] front[i]).name@ == name && front[i].path@
                    == path && flags[i] == flag;
            assert(list[i] == front[i]);
        }
        if now.contains(e) && !rest.contains(e) {
            let k = now.index_of(e);
            if k < rest.len() {
                assert(rest[k] == e);
            }
            assert(list[n].name@ == name);
        }
        if lists_flagged(list, flags, name, path, flag) {
            let i = choose|i: int|
                0 <= i < list.len() && (#[trigger] list[i]).name@ == name && list[i].path@ == path
                    && flags[i] == flag;
            if i < n {
                assert(front[i] == list[i]);
                assert(lists_flagged(front, flags, name, path, flag));
            } else {
                assert(now[rest.len() as int] == e);
            }
        }
    }
}

proof fn lemma_select_counts(list: Seq<registry::Entry>, flags: Seq<bool>)
    ensures
        registry::select(list, flags, true).len() + registry::select(list, flags, false).len()
            == list.len(),
    decreases list.len(),
{
    if list.len() > 0 {
        lemma_select_counts(list.drop_last(), flags);
    }
}

/// Those projects whose directory is gone are taken out of the registry and
/// handed back; those whose directory is there stay.
pub proof fn pruned(
    list: &mut Registry,
    is_dir: &Vec<bool>,
    r: Vec<Project>,
    name: Seq<char>,
    path: Seq<char>,
)
    requires
        is_dir@.len() == old(list).projects@.len(),
        call_ensures(Registry::take_ghosts, (list, is_dir), r),
    ensures
        lists(r@, name, path) <==> lists_flagged(
            old(list).projects@,
            is_dir@,
            name,
            path,
            false,
        ),
        lists(final(list).projects@, name, path) <==> lists_flagged(
            old(list).projects@,
            is_dir@,
            name,
            path,
            true,
        ),
        r@.len() + final(list).projects@.len() == old(list).projects@.len(),
{
    lemma_lists(r@, name, path);
    lemma_lists(final(list).projects@, name, path);
    lemma_select(old(list).projects@, is_dir@, name, path, false);
    lemma_select(old(list).projects@, is_dir@, name, path, true);
    lemma_select_counts(old(list)@, is_dir@);
    assert(registry::entries(r@).len() == r@.len());
    assert(final(list)@.len() == final(list).projects@.len());
    assert(old(list)@.len() == old(list).projects@.len());
}

/// What is shown before projects are pruned: one line for each whose
/// directory is gone, and the question with their number. Where there are
/// none nothing is asked.
pub proof fn asked_before_pruning(
    list: &Registry,
    is_dir: &Vec<bool>,
    r: Option<PrunePlan>,
    i: int,
)
    requires
        is_dir@.len() == list.projects@.len(),
        call_ensures(cli::prune_plan, (list, is_dir), r),
        0 <= i < is_dir@.len(),
    ensures
        !is_dir@[i] ==> r is Some,
        r matches Some(p) ==> p.question@ == "Remove "@ + text::decimal(p.lines@.len())
            + " ghost project(s)?"@ && p.lines@.len() > 0,
        r matches Some(p) ==> (!is_dir@[i] ==> exists|k: int|
            0 <= k < p.lines@.len() && (#[trigger] p.lines@[k])@ == "  "@
                + list.projects@[i].name@ + " → "@ + list.projects@[i].path@),
{
    let ghosts = registry::select(list@, is_dir@, false);
    let name = list.projects@[i].name@;
    let path = list.projects@[i].path@;
    let e = registry::Entry { name, path };
    lemma_select(list.projects@, is_dir@, name, path, false);
    if !is_dir@[i] {
        assert(lists_flagged(list.projects@, is_dir@, name, path, false));
        assert(ghosts.contains(e));
        let k = ghosts.index_of(e);
        assert(ghosts.len() > 0);
        if let Some(p) = r {
            let lines = text::views(p.lines@);
            assert(lines.len() == p.lines@.len());
            assert(lines[k] == cli::prune_line(e));
            assert(lines[k] == p.lines@[k]@);
        }
    }
    if let Some(p) = r {
        assert(text::views(p.lines@).len() == p.lines@.len());
    }
}

// ---------------------------------------------------------------------------
// Registering
// ---------------------------------------------------------------------------
/// What registering a project amounts to: adding it where its name is free,
/// nothing where it is registered at that path, and otherwise replacing what
/// is registered, which is asked first.
pub proof fn step_of_registering(
    list: &Registry,
    name: &str,
    path: &str,
    r: RegisterStep,
    i: int,
    there: &str,
    same: bool,
)
    requires
        call_ensures(cli::register_step, (list, name, path), r),
        0 <= i < list.projects@.len() ==> there@ == list.projects@[i].path@,
        call_ensures(paths::is_same_path, (there, path), same),
    ensures
        is_free(list.projects@, name@) <==> r is Add,
        startup::first_of(list.projects@, name@, i) ==> (r is Already <==> same),
        startup::first_of(list.projects@, name@, i) ==> (r is Override <==> !same),
        r matches RegisterStep::Already(m) ==> m@ == "already registered"@ + " `"@ + name@ + "` → "@
            + path@,
{
    let all = list@;
    lemma_is_free(*list, name@);
    startup::lemma_first_of(*list, name@, i);
    if registry::has_name(all, name@) {
        let k = choose|k: int|
            #[trigger] registry::is_first(all, name@, k) && cli::is_step_beside(
                r,
                all[k].path,
                name@,
                path@,
            );
        if startup::first_of(list.projects@, name@, i) {
            assert(registry::is_first(all, name@, i));
            assert(k == i);
            assert(all[i] == list.projects@[i]@);
        }
    } else if startup::first_of(list.projects@, name@, i) {
        assert(list.projects@[i].name@ == name@);
    }
}

/// Registering a project puts it under its name with its path, in the place
/// of the first of that name if there is one.
pub proof fn registered(list: &mut Registry, name: &str, path: &str, r: String, i: int)
    requires
        call_ensures(cli::register, (list, name, path), r),
    ensures
        is_free(old(list).projects@, name@) ==> {
            let n = old(list).projects@.len() as int;
            &&& final(list).projects@.len() == n + 1
            &&& final(list).projects@[n].name@ == name@
            &&& final(list).projects@[n].path@ == path@
            &&& 0 <= i < n ==> final(list).projects@[i].name@ == old(list).projects@[i].name@
            &&& 0 <= i < n ==> final(list).projects@[i].path@ == old(list).projects@[i].path@
            &&& r@ == "registered"@ + " `"@ + name@ + "` → "@ + path@
        },
        startup::first_of(old(list).projects@, name@, i) ==> {
            &&& final(list).projects@.len() == old(list).projects@.len()
            &&& final(list).projects@[i].name@ == name@
            &&& final(list).projects@[i].path@ == path@
            &&& forall|j: int|
                0 <= j < final(list).projects@.len() && j != i ==> (
                #[trigger] final(list).projects@[j]).name@ == old(list).projects@[j].name@
                    && final(list).projects@[j].path@ == old(list).projects@[j].path@
            &&& r@ == "overrode"@ + " `"@ + name@ + "` → "@ + path@
        },
{
    let all = old(list)@;
    let now = final(list)@;
    lemma_is_free(*old(list), name@);
    startup::lemma_first_of(*old(list), name@, i);
    assert(all.len() == old(list).projects@.len());
    assert(now.len() == final(list).projects@.len());
    assert(forall|j: int| 0 <= j < all.len() ==> #[trigger] all[j] == old(list).projects@[j]@);
    assert(forall|j: int| 0 <= j < now.len() ==> #[trigger] now[j] == final(list).projects@[j]@);
    if is_free(old(list).projects@, name@) {
        let n = all.len() as int;
        assert(now[n] == final(list).projects@[n]@);
        if 0 <= i < n {
            assert(now[i] == all[i]);
        }
    }
    if startup::first_of(old(list).projects@, name@, i) {
        assert(all[i].name == name@);
        assert(registry::has_name(all, name@));
        let k = choose|k: int| #[trigger]
            registry::is_first(all, name@, k) && now == all.update(
                k,
                registry::Entry { name: name@, path: path@ },
            );
        assert(k == i);
        assert(now[i] == final(list).projects@[i]@);
        assert forall|j: int|
            0 <= j < final(list).projects@.len() && j != i implies (
        #[trigger] final(list).projects@[j]).name@ == old(list).projects@[j].name@
            && final(list).projects@[j].path@ == old(list).projects@[j].path@ by {
            assert(now[j] == all[j]);
        }
    }
}

/// Unregistering a project takes the first of its name out, and says where it
/// was; where there is none nothing changes.
pub proof fn unregistered(list: &mut Registry, name: &str, r: Result<String, String>, i: int)
    requires
        call_ensures(cli::unregister, (list, name), r),
    ensures
        r is Err <==> is_free(old(list).projects@, name@),
        r is Err ==> messages::same_list(final(list).projects@, old(list).projects@),
        startup::first_of(old(list).projects@, name@, i) ==> messages::same_list(
            final(list).projects@,
            old(list).projects@.remove(i),
        ) && (r matches Ok(m) && m@ == "unregistered `"@ + name@ + "` (was "@ + old(
            list,
        ).projects@[i].path@ + ")"@),
{
    let all = old(list)@;
    lemma_is_free(*old(list), name@);
    startup::lemma_first_of(*old(list), name@, i);
    if r is Err {
        messages::lemma_same_list(final(list).projects@, old(list).projects@);
        if startup::first_of(old(list).projects@, name@, i) {
            assert(old(list).projects@[i].name@ == name@);
        }
    }
    if let Ok(m) = r {
        let k = choose|k: int| #[trigger]
            registry::is_first(all, name@, k) && final(list)@ == all.remove(k) && m@
                == "unregistered `"@ + name@ + "` (was "@ + all[k].path + ")"@;
        assert(all[k].name == name@);
        if startup::first_of(old(list).projects@, name@, i) {
            assert(k == i);
            assert(all[i] == old(list).projects@[i]@);
            assert(registry::entries(old(list).projects@.remove(i)) == all.remove(i));
            messages::lemma_same_list(final(list).projects@, old(list).projects@.remove(i));
        }
    }
}

/// Only a project that goes by the name of its folder is warned of.
pub proof fn warned_of_a_folder_name(resolved: &ProjectName, r: Option<cli::FallbackNotice>)
    requires
        call_ensures(cli::fallback_notice, (resolved,), r),
    ensures
        r is Some <==> resolved is Fallback,
        (r, resolved) matches (Some(n), ProjectName::Fallback(name)) ==> n.hint@
            == "services will be reachable at <service>."@ + name@ + ".localhost"@,
{
}

// ---------------------------------------------------------------------------
// Questions
// ---------------------------------------------------------------------------
/// A question is asked only where somebody can answer, unless yes is given
/// beforehand; it is never taken as answered otherwise.
pub proof fn settled_question(prompt: &str, yes: bool, terminal: bool, r: Confirm)
    requires
        call_ensures(cli::confirm, (prompt, yes, terminal), r),
    ensures
        r is Accepted <==> yes,
        r is Ask <==> !yes && terminal,
        r is Refused <==> !yes && !terminal,
        r matches Confirm::Ask(p) ==> p@ == prompt@ + " [y/N] "@,
{
}

/// Whether two characters are the same letter, or the same character.
pub open spec fn same_letter(a: char, b: char) -> bool {
    ||| a == b
    ||| ('a' <= a <= 'z' && b as int == a as int - 32)
    ||| ('a' <= b <= 'z' && a as int == b as int - 32)
}

/// Whether two texts are the same but for capitals.
pub open spec fn same_letters(a: Seq<char>, b: Seq<char>) -> bool {
    &&& a.len() == b.len()
    &&& forall|i: int| 0 <= i < a.len() ==> same_letter(#[trigger] a[i], b[i])
}

proof fn lemma_same_letters(a: Seq<char>, b: Seq<char>)
    ensures
        same_letters(a, b) <==> words::equal_folded(a, b),
{
    let x = a.map_values(|c: char| text::lower(c));
    let y = b.map_values(|c: char| text::lower(c));
    if same_letters(a, b) {
        assert forall|i: int| 0 <= i < x.len() implies x[i] == y[i] by {
            assert(same_letter(a[i], b[i]));
        }
        assert(x =~= y);
    }
    if x == y {
        assert(x.len() == a.len() && y.len() == b.len());
        assert forall|i: int| 0 <= i < a.len() implies same_letter(#[trigger] a[i], b[i]) by {
            assert(x[i] == text::lower(a[i]));
            assert(y[i] == text::lower(b[i]));
        }
    }
}

/// An answer means yes if it is the letter Y or the word, in whatever case and
/// with whatever white space around it, and in no other case.
pub proof fn answer_that_means_yes(line: &str, chars: &Vec<char>, t: String, r: bool)
    requires
        call_ensures(cli::is_yes, (line,), r),
        chars@ == line@,
        call_ensures(words::trimmed, (chars,), t),
    ensures
        r <==> same_letters(t@, "y"@) || same_letters(t@, "yes"@),
{
    lemma_same_letters(t@, "y"@);
    lemma_same_letters(t@, "yes"@);
}

// ---------------------------------------------------------------------------
// Tables
// ---------------------------------------------------------------------------
/// A time span is shown in seconds, in minutes and seconds, or in hours and
/// minutes, with nothing over that would make up the next unit.
pub proof fn shown_time_span(secs: u64, r: String)
    requires
        call_ensures(cli::format_uptime, (secs,), r),
    ensures
        secs < 60 ==> r@ == text::decimal(secs as nat) + "s"@,
        60 <= secs < 3600 ==> exists|m: nat, s: nat|
            s < 60 && m < 60 && secs == m * 60 + s && r@ == #[trigger] text::decimal(m) + "m "@
                + #[trigger] text::decimal(s) + "s"@,
        3600 <= secs ==> exists|h: nat, m: nat|
            m < 60 && h * 3600 + m * 60 <= secs < h * 3600 + m * 60 + 60 && r@
                == #[trigger] text::decimal(h) + "h "@ + #[trigger] text::decimal(m) + "m"@,
{
    if 60 <= secs && secs < 3600 {
        let m = (secs / 60) as nat;
        let s = (secs % 60) as nat;
        assert(s < 60 && m < 60 && secs == m * 60 + s);
        assert(r@ == text::decimal(m) + "m "@ + text::decimal(s) + "s"@);
    } else if 3600 <= secs {
        let h = (secs / 3600) as nat;
        let m = ((secs % 3600) / 60) as nat;
        assert(m < 60 && h * 3600 + m * 60 <= secs < h * 3600 + m * 60 + 60);
        assert(r@ == text::decimal(h) + "h "@ + text::decimal(m) + "m"@);
    }
}

/// A running project is shown with its name, its process, how long it has
/// been up, and its services one below the other, in the order given.
pub proof fn shown_projects(
    projects: &Vec<ProjectRuntime>,
    r: Vec<StatusRow>,
    i: int,
    up: String,
    joined: String,
)
    requires
        call_ensures(cli::status_rows, (projects,), r),
        0 <= i < projects@.len(),
        call_ensures(cli::format_uptime, (projects@[i].uptime_secs,), up),
        call_ensures(words::join, (&projects@[i].routes, "\n"), joined),
    ensures
        r@.len() == projects@.len(),
        r@[i].name@ == projects@[i].name@,
        r@[i].pid@ == text::decimal(projects@[i].pid as nat),
        r@[i].uptime@ == up@,
        projects@[i].routes@.len() == 0 ==> r@[i].services@ == "-"@,
        projects@[i].routes@.len() > 0 ==> r@[i].services@ == joined@,
{
    assert(cli::is_status_row(r@[i], projects@[i]@));
    assert(text::views(projects@[i].routes@).len() == projects@[i].routes@.len());
}

/// A registered project is shown as gone exactly where its directory is.
pub proof fn shown_registration(there: bool, r: &'static str, p: &Project, gone: bool)
    requires
        call_ensures(cli::list_status, (there,), r),
        call_ensures(Project::is_ghost, (p, there), gone),
    ensures
        there ==> r@ == "ok"@ && !gone,
        !there ==> r@ == "ghost"@ && gone,
{
}

/// The answer of the daemon to an order: done, or why not.
pub proof fn answer_to_an_order(response: &Response, r: Result<(), String>, shown: String)
    requires
        call_ensures(cli::expect_done, (response,), r),
        call_ensures(Response::debug_text, (response,), shown),
    ensures
        response is Pong || response is Status ==> (r matches Err(m) && m@
            == "unexpected response from nealsd: "@ + shown@),
        r is Ok <==> response is Done,
        response matches Response::Error { message } ==> (r matches Err(m) && m@ == message@),
{
}

/// The answer of the daemon to a question for the status: the reports as they
/// are, or why there are none.
pub proof fn answer_to_a_question(
    response: Response,
    r: Result<Vec<ProjectRuntime>, String>,
    shown: String,
)
    requires
        call_ensures(cli::expect_status, (response,), r),
        call_ensures(Response::debug_text, (&response,), shown),
    ensures
        response is Pong || response is Done ==> (r matches Err(m) && m@
            == "unexpected response from nealsd: "@ + shown@),
        r is Ok <==> response is Status,
        response matches Response::Status { projects } ==> (r matches Ok(v) && v@.len()
            == projects@.len() && forall|i: int|
            0 <= i < v@.len() ==> messages::same_report(#[trigger] v@[i], projects@[i])),
        response matches Response::Error { message } ==> (r matches Err(m) && m@ == message@),
{
    if let (Response::Status { projects }, Ok(v)) = (response, r) {
        messages::lemma_same_response(Response::Status { projects: v }, response);
    }
}

/// A running project is found by its name, the first of that name if there
/// are several.
pub proof fn found_among_the_running(
    projects: &Vec<ProjectRuntime>,
    name: &str,
    r: Option<&ProjectRuntime>,
    i: int,
)
    requires
        call_ensures(cli::find_running, (projects, name), r),
    ensures
        r is None <==> session::no_report(projects@, name@),
        session::first_report(projects@, name@, i) ==> (r matches Some(p) && messages::same_report(
            *p,
            projects@[i],
        )),
{
    let all = ipc::runtimes(projects@);
    session::lemma_first_report(projects@, name@, i);
    if let Some(p) = r {
        let k = choose|k: int| #[trigger]
            cli::is_first_running(all, name@, k) && p@ == all[k];
        assert(all[k].name == name@);
        assert(cli::is_among(all, name@));
        if session::first_report(projects@, name@, i) {
            assert(k == i);
            assert(all[i] == projects@[i]@);
            messages::lemma_same_report(*p, projects@[i]);
        }
    } else if session::first_report(projects@, name@, i) {
        assert(projects@[i].name@ == name@);
    }
}

/// The routes of a project that came up are shown one by one, and those of no
/// other project.
pub proof fn shown_routes(
    projects: &Vec<ProjectRuntime>,
    name: &str,
    color: bool,
    r: Vec<String>,
    i: int,
    j: int,
    route: &str,
    painted: String,
)
    requires
        call_ensures(cli::route_lines, (projects, name, color), r),
        session::first_report(projects@, name@, i) && 0 <= j < projects@[i].routes@.len()
            ==> route@ == projects@[i].routes@[j]@,
        call_ensures(style::accent, (route, color), painted),
    ensures
        session::no_report(projects@, name@) ==> r@.len() == 0,
        session::first_report(projects@, name@, i) ==> r@.len() == projects@[i].routes@.len(),
        session::first_report(projects@, name@, i) && 0 <= j < projects@[i].routes@.len()
            ==> r@[j]@ == "  → "@ + painted@,
{
    let all = ipc::runtimes(projects@);
    session::lemma_first_report(projects@, name@, i);
    if session::first_report(projects@, name@, i) {
        assert(projects@[i].name@ == name@);
        assert(all[i] == projects@[i]@);
        assert(all[i].name == name@);
        assert(cli::is_among(all, name@));
        let k = choose|k: int| #[trigger]
            cli::is_first_running(all, name@, k) && text::views(r@) == all[k].routes.map_values(
                |s: Seq<char>| cli::route_line(s, color),
            );
        assert(cli::is_first_running(all, name@, i));
        assert(k == i);
        let said = text::views(r@);
        assert(said.len() == r@.len());
        assert(all[i].routes.len() == projects@[i].routes@.len());
        if 0 <= j < projects@[i].routes@.len() {
            assert(said[j] == r@[j]@);
            assert(all[i].routes[j] == projects@[i].routes@[j]@);
        }
    }
}

/// What completes a project is the name of each registered one that starts
/// with what was typed.
pub proof fn completed_names(list: &Registry, current: &str, r: Vec<String>, name: Seq<char>)
    requires
        call_ensures(cli::complete_projects, (list, current), r),
    ensures
        (exists|k: int| 0 <= k < r@.len() && (#[trigger] r@[k])@ == name) <==> current@.len()
            <= name.len() && name.take(current@.len() as int) == current@ && (exists|i: int|
            0 <= i < list.projects@.len() && (#[trigger] list.projects@[i]).name@ == name),
{
    let said = text::views(r@);
    assert(said.len() == r@.len());
    lemma_completions(list.projects@, current@, name);
    if exists|k: int| 0 <= k < r@.len() && (#[trigger] r@[k])@ == name {
        let k = choose|k: int| 0 <= k < r@.len() && (#[trigger] r@[k])@ == name;
        assert(said[k] == name);
        assert(said.contains(name));
    }
    if said.contains(name) {
        let k = said.index_of(name);
        assert(r@[k]@ == name);
    }
}

proof fn lemma_completions(list: Seq<Project>, prefix: Seq<char>, name: Seq<char>)
    ensures
        cli::completions(registry::entries(list), prefix).contains(name) <==> prefix.len()
            <= name.len() && name.take(prefix.len() as int) == prefix && (exists|i: int|
            0 <= i < list.len() && (#[trigger] list[i]).name@ == name),
    decreases list.len(),
{
    let all = registry::entries(list);
    let now = cli::completions(all, prefix);
    if list.len() > 0 {
        let front = list.drop_last();
        let n = list.len() - 1;
        assert(registry::entries(front) == all.drop_last());
        lemma_completions(front, prefix, name);
        let rest = cli::completions(all.drop_last(), prefix);
        assert(all.last() == list[n]@);
        let last = list[n].name@;
        assert(words::starts_with(last, prefix) <==> prefix.len() <= last.len() && last.take(
            prefix.len() as int,
        ) == prefix) by {
            if prefix.len() <= last.len() {
                assert(last.subrange(0, prefix.len() as int) == last.take(prefix.len() as int));
            }
        }
        if rest.contains(name) {
            let k = rest.index_of(name);
            assert(now[k] == name);
            let i = choose|i: int| 0 <= i < front.len() && (#[trigger] front[i]).name@ == name;
            assert(list[i] == front[i]);
        }
        if now.contains(name) && !rest.contains(name) {
            let k = now.index_of(name);
            if k < rest.len() {
                assert(rest[k] == name);
            }
            assert(list[n].name@ == name);
        }
        if exists|i: int| 0 <= i < list.len() && (#[trigger] list[i]).name@ == name {
            let i = choose|i: int| 0 <= i < list.len() && (#[trigger] list[i]).name@ == name;
            if i < n {
                assert(front[i] == list[i]);
            } else if words::starts_with(last, prefix) {
                assert(now[rest.len() as int] == name);
            }
        }
    }
}

// ---------------------------------------------------------------------------
// Refreshing
// ---------------------------------------------------------------------------
/// A name may be part of a path only if it is one step of it.
pub proof fn safe_names(name: &str, r: bool)
    requires
        call_ensures(refresh::is_safe_project_name, (name,), r),
    ensures
        r <==> name@.len() > 0 && name@ != "."@ && name@ != ".."@ && forall|i: int|
            0 <= i < name@.len() ==> #[trigger] name@[i] != '/' && name@[i] != '\\' && name@[i]
                != '\0',
{
    if r {
        assert forall|i: int| 0 <= i < name@.len() implies #[trigger] name@[i] != '/' && name@[i]
            != '\\' && name@[i] != '\0' by {
            assert(name@.contains(name@[i]));
        }
    }
}

/// A project is refreshed if it is registered, its directory is there and its
/// name is safe; it is then the registered one.
pub proof fn project_to_refresh<F: Fn(&String) -> bool>(
    list: &Registry,
    name: &str,
    is_dir: &F,
    r: Result<Project, String>,
    there: Set<Seq<char>>,
    i: int,
    safe: bool,
)
    requires
        call_ensures(refresh::resolve_registered::<F>, (list, name, is_dir), r),
        forall|p: &String, b: bool| #[trigger] is_dir.ensures((p,), b) ==> b == there.contains(p@),
        call_ensures(refresh::is_safe_project_name, (name,), safe),
    ensures
        is_free(list.projects@, name@) ==> r is Err,
        startup::first_of(list.projects@, name@, i) ==> (r is Ok <==> there.contains(
            list.projects@[i].path@,
        ) && safe),
        startup::first_of(list.projects@, name@, i) ==> (r matches Ok(p) ==> p.name@ == name@
            && p.path@ == list.projects@[i].path@),
        startup::first_of(list.projects@, name@, i) ==> (r matches Err(m) ==> m@
            == if there.contains(list.projects@[i].path@) {
            "refusing unsafe project name `"@ + name@ + "`"@
        } else {
            "project `"@ + name@ + "` path is missing: "@ + list.projects@[i].path@
        }),
{
    let all = list@;
    lemma_is_free(*list, name@);
    startup::lemma_first_of(*list, name@, i);
    if startup::first_of(list.projects@, name@, i) {
        assert(all[i] == list.projects@[i]@);
        assert(all[i].name == name@);
        assert(registry::has_name(all, name@));
        let (k, dir) = choose|k: int, dir: bool| #[trigger]
            registry::is_first(all, name@, k) && #[trigger] refresh::is_checked(r, all[k], dir) && (
            exists|p: String| p@ == all[k].path && #[trigger] is_dir.ensures((&p,), dir));
        assert(registry::is_first(all, name@, i));
        assert(k == i);
        let p = choose|p: String| p@ == all[k].path && #[trigger] is_dir.ensures((&p,), dir);
        assert(is_dir.ensures((&p,), dir));
        assert(dir == there.contains(p@));
    }
}

/// A project is stopped first only if the daemon reports it.
pub proof fn stopped_before_refreshing(response: &Response, project: &str, r: Result<bool, String>)
    requires
        call_ensures(refresh::stop_if_running, (response, project), r),
    ensures
        r is Ok <==> response is Status,
        response matches Response::Status { projects } ==> (r matches Ok(b) && (b
            <==> !session::no_report(projects@, project@))),
        response matches Response::Error { message } ==> (r matches Err(m) && m@ == message@),
{
    if let Response::Status { projects } = response {
        session::lemma_first_report(projects@, project@, 0);
    }
}

/// Sockets are kept in the directory of the user, and in that of the system
/// daemon where it is there and another one.
pub proof fn roots_for_sockets(runtime: &str, system: bool, r: Vec<String>, same: bool)
    requires
        call_ensures(refresh::managed_runtime_roots, (runtime, system), r),
        call_ensures(paths::is_same_path, (runtime, "/run/neals"), same),
    ensures
        r@.len() == if system && !same {
            2int
        } else {
            1int
        },
        r@[0]@ == runtime@,
        system && !same ==> r@[1]@ == "/run/neals"@,
{
    let all = text::views(r@);
    assert(all.len() == r@.len());
    assert(all[0] == r@[0]@);
    if system && !same {
        assert(all[1] == r@[1]@);
    }
}

/// Wiping a project removes its two directories of state and its directory in
/// each of those for sockets, and nothing else.
pub proof fn wiped(name: &str, path: &str, roots: &Vec<String>, r: Vec<String>, i: int)
    requires
        call_ensures(refresh::managed_wipe_targets, (name, path, roots), r),
    ensures
        r@.len() == 2 + roots@.len(),
        r@[0]@ == paths::below(path@, ".devenv"@),
        r@[1]@ == paths::below(path@, ".neals"@),
        0 <= i < roots@.len() ==> r@[2 + i]@ == paths::below(roots@[i]@, name@),
{
    let all = text::views(r@);
    assert(all.len() == r@.len());
    assert(text::views(roots@).len() == roots@.len());
    assert(all[0] == r@[0]@);
    assert(all[1] == r@[1]@);
    if 0 <= i < roots@.len() {
        assert(all[2 + i] == r@[2 + i]@);
        assert(text::views(roots@)[i] == roots@[i]@);
    }
}

/// What may be removed is a directory of state of the project, in a project
/// that is where it is said to be, or the directory of its name in one of
/// those for sockets.
pub proof fn allowed_to_be_wiped(
    path: &str,
    project: &str,
    root: &str,
    canon_root: &str,
    canon_parent: Option<&String>,
    roots: &Vec<String>,
    r: bool,
    devenv: &str,
    neals: &str,
    is_devenv: bool,
    is_neals: bool,
    parent: &str,
    at_home: bool,
    last: Option<String>,
)
    requires
        call_ensures(
            refresh::is_allowed_wipe_path,
            (path, project, root, canon_root, canon_parent, roots),
            r,
        ),
        devenv@ == paths::below(root@, ".devenv"@),
        neals@ == paths::below(root@, ".neals"@),
        call_ensures(paths::is_same_path, (path, devenv), is_devenv),
        call_ensures(paths::is_same_path, (path, neals), is_neals),
        canon_parent matches Some(p) ==> parent@ == p@,
        call_ensures(paths::is_same_path, (parent, canon_root), at_home),
        call_ensures(paths::file_name, (path,), last),
    ensures
        is_devenv || is_neals ==> (canon_parent is Some ==> (r <==> at_home)),
        is_devenv || is_neals ==> (canon_parent is None ==> r),
        !is_devenv && !is_neals ==> (r ==> (last matches Some(n) && n@ == project@)),
        !is_devenv && !is_neals && roots@.len() == 0 ==> !r,
{
    if is_devenv || is_neals {
        reveal_strlit(".devenv");
        reveal_strlit(".neals");
        reveal_strlit(".");
        reveal_strlit("..");
        assert(".devenv"@.len() == 7);
        assert(".neals"@.len() == 6);
        assert("."@.len() == 1);
        assert(".."@.len() == 2);
        assert(!".devenv"@.contains('/'));
        assert(!".neals"@.contains('/'));
        paths::components_below(root@, ".devenv"@);
        paths::components_below(root@, ".neals"@);
    }
    assert(text::views(roots@).len() == roots@.len());
}

/// The directory of a project among those for sockets may be removed, and one
/// of another name may not.
pub proof fn socket_directory_may_be_wiped(
    path: &str,
    project: &str,
    root: &str,
    canon_root: &str,
    canon_parent: Option<&String>,
    roots: &Vec<String>,
    r: bool,
    i: int,
    name: Seq<char>,
)
    requires
        call_ensures(
            refresh::is_allowed_wipe_path,
            (path, project, root, canon_root, canon_parent, roots),
            r,
        ),
        0 <= i < roots@.len(),
        texts::is_step(name),
        name != ".devenv"@,
        name != ".neals"@,
        path@ == paths::below(roots@[i]@, name),
    ensures
        r <==> name == project@,
{
    reveal_strlit(".devenv");
    reveal_strlit(".neals");
    reveal_strlit(".");
    reveal_strlit("..");
    assert(".devenv"@.len() == 7);
    assert(".neals"@.len() == 6);
    assert("."@.len() == 1);
    assert(".."@.len() == 2);
    assert(!".devenv"@.contains('/'));
    assert(!".neals"@.contains('/'));
    paths::components_below(root@, ".devenv"@);
    paths::components_below(root@, ".neals"@);
    paths::components_below(roots@[i]@, name);
    let rs = text::views(roots@);
    assert(rs[i] == roots@[i]@);
    assert(refresh::is_one_of(rs, paths::components(rs[i])));
}

// ---------------------------------------------------------------------------
// Checks of the environment
// ---------------------------------------------------------------------------
/// A tool counts as found if it ran and either succeeded or said something;
/// one that is not there counts as missing, whether it is needed or not.
pub proof fn looked_for_a_tool(name: &str, run: &ToolRun, required: bool, r: Check)
    requires
        call_ensures(doctor::check_on_path, (name, run, required), r),
    ensures
        r.name@ == name@,
        r.required == required,
        run is NotFound ==> !r.ok,
        run matches ToolRun::Ran { success, .. } ==> (*success ==> r.ok),
        run matches ToolRun::NotFound(e) ==> r.detail@ == "not on PATH ("@ + e@ + ")"@,
        run matches ToolRun::Ran { status, .. } ==> (!r.ok ==> r.detail@ == "exited "@ + status@),
{
}

/// The version of a tool is the first line that it prints, or that it
/// complains if it prints nothing, without white space around it.
pub proof fn version_of_a_tool(
    name: &str,
    run: &ToolRun,
    required: bool,
    r: Check,
    said: &Vec<char>,
    trimmed: String,
    shown: &Vec<char>,
    lines: Vec<String>,
    first: &Vec<char>,
    version: String,
)
    requires
        call_ensures(doctor::check_on_path, (name, run, required), r),
        run matches ToolRun::Ran { stdout, stderr, .. } && said@ == stdout@ && shown@ == if trimmed@.len()
            == 0 {
            stderr@
        } else {
            stdout@
        },
        call_ensures(words::trimmed, (said,), trimmed),
        call_ensures(words::split_lines, (shown,), lines),
        lines@.len() > 0,
        first@ == lines@[0]@,
        call_ensures(words::trimmed, (first,), version),
    ensures
        version@.len() > 0 ==> r.ok && r.detail@ == version@,
{
    assert(text::views(lines@)[0] == lines@[0]@);
}

/// `devenv` is there if either way to ask for its version finds it.
pub proof fn looked_for_devenv(a: &ToolRun, b: &ToolRun, r: Check, x: Check, y: Check)
    requires
        call_ensures(doctor::check_devenv, (a, b), r),
        call_ensures(doctor::check_on_path, ("devenv", a, true), x),
        call_ensures(doctor::check_on_path, ("devenv", b, true), y),
    ensures
        r.ok <==> x.ok || y.ok,
        r.required,
        r.name@ == "devenv"@,
{
}

/// A directory passes if it can be written to, and is shown with the reason if
/// it cannot.
pub proof fn looked_at_a_directory(label: &str, path: &str, failure: Option<&String>, r: Check)
    requires
        call_ensures(doctor::check_dir_writable, (label, path, failure), r),
    ensures
        r.ok <==> failure is None,
        r.required,
        r.name@ == label@,
        failure is None ==> r.detail@ == path@,
        failure matches Some(e) ==> r.detail@ == path@ + " ("@ + e@ + ")"@,
{
}

/// A daemon that does not answer is no failure, since it is started when it is
/// needed; one that answers something else than it should is one.
pub proof fn asked_after_the_daemon(
    answer: &Result<Response, String>,
    system: bool,
    r: Check,
)
    requires
        call_ensures(doctor::check_daemon_ping, (answer, system), r),
    ensures
        r.ok <==> answer is Err || answer->Ok_0 is Pong,
        r.required,
        answer is Ok && answer->Ok_0 is Pong ==> r.detail@ == "responding"@,
{
}

/// The reverse proxy at the port of plain HTTP passes; at the other port, or
/// not there, it is only warned of.
pub proof fn looked_at_the_proxy(plain: Option<bool>, other: Option<bool>, r: Check)
    requires
        call_ensures(doctor::check_http, (plain, other), r),
    ensures
        r.ok <==> plain == Some(true),
        !r.ok ==> !r.required,
        !r.ok && other == Some(true) ==> r.detail@ == "requires port in URLs"@,
        !r.ok && other != Some(true) ==> r.detail@ == "Caddy not listening"@,
{
}

/// Whether a check had to pass and did not.
pub open spec fn failed(c: Check) -> bool {
    c.required && !c.ok
}

/// How many of the first `n` checks failed.
pub open spec fn count_failed(list: Seq<Check>, n: nat) -> nat
    decreases n,
{
    if n == 0 {
        0
    } else if failed(list[n - 1]) {
        count_failed(list, (n - 1) as nat) + 1
    } else {
        count_failed(list, (n - 1) as nat)
    }
}

proof fn lemma_count_failed(list: Seq<Check>, n: nat)
    requires
        n <= list.len(),
    ensures
        count_failed(list, n) == doctor::failures(doctor::findings(list).take(n as int)),
    decreases n,
{
    let all = doctor::findings(list);
    if n > 0 {
        let m = (n - 1) as nat;
        lemma_count_failed(list, m);
        assert(all.take(n as int).drop_last() == all.take(m as int));
        assert(all.take(n as int).last() == list[n - 1]@);
    }
}

/// The report shows every check in order, with its mark, its name and what
/// was found. It is good news exactly where no check failed that had to pass;
/// else it says how many did.
pub proof fn report_on_the_checks(
    checks: &Vec<Check>,
    color: bool,
    r: Report,
    i: int,
    mark: String,
    m: &str,
    wide: String,
    n: &str,
    named: String,
)
    requires
        call_ensures(doctor::run_doctor, (checks, color), r),
        0 <= i < checks@.len(),
        call_ensures(style::format_mark, (checks@[i].ok, checks@[i].required, color), mark),
        m@ == mark@,
        n@ == checks@[i].name@,
        call_ensures(style::pad_right, (m, 18usize), wide),
        call_ensures(style::pad_right, (n, 10usize), named),
    ensures
        r.lines@.len() == checks@.len(),
        r.lines@[i]@ == wide@ + " "@ + named@ + " "@ + checks@[i].detail@,
        r.passed <==> count_failed(checks@, checks@.len()) == 0,
        failed(checks@[i]) ==> !r.passed,
        r.passed ==> r.summary@ == "all required checks passed"@,
        !r.passed ==> r.summary@ == text::decimal(count_failed(checks@, checks@.len()))
            + " required check(s) failed"@,
{
    let all = doctor::findings(checks@);
    let lines = text::views(r.lines@);
    assert(lines.len() == r.lines@.len());
    assert(all.len() == checks@.len());
    assert(all[i] == checks@[i]@);
    assert(lines[i] == r.lines@[i]@);
    lemma_count_failed(checks@, checks@.len());
    assert(all.take(all.len() as int) == all);
    doctor::report_is_good_news(all);
    if failed(checks@[i]) {
        assert(doctor::is_failure(all[i]));
    }
}

/// What the remaining checks and messages say.
pub proof fn remaining_checks(
    name: &str,
    detail: &str,
    a: Check,
    b: Check,
    c: Check,
    d: Check,
    exe: &Result<String, String>,
    own: Check,
    path: &str,
    found: bool,
    daemon: Check,
    system: bool,
    sys: Check,
)
    requires
        call_ensures(Check::ok, (name, detail), a),
        call_ensures(Check::fail, (name, detail), b),
        call_ensures(Check::warn, (name, detail), c),
        call_ensures(Check::info, (name, detail), d),
        call_ensures(doctor::check_self, (exe,), own),
        call_ensures(doctor::check_nealsd, (path, found), daemon),
        call_ensures(doctor::check_system_daemon, (system,), sys),
    ensures
        a.ok && a.required && a.name@ == name@ && a.detail@ == detail@,
        !b.ok && b.required && b.name@ == name@ && b.detail@ == detail@,
        !c.ok && !c.required && c.name@ == name@ && c.detail@ == detail@,
        d.ok && !d.required && d.name@ == name@ && d.detail@ == detail@,
        own.required && own.name@ == "neals"@ && (own.ok <==> exe is Ok),
        exe matches Ok(p) ==> own.detail@ == p@,
        daemon.required && daemon.name@ == "nealsd"@ && (daemon.ok <==> found),
        found ==> daemon.detail@ == path@,
        !sys.required && sys.name@ == "system"@ && (sys.ok <==> system),
        system ==> sys.detail@ == "/run/neals/nealsd.sock"@ + " (portless :80)"@,
{
}

/// A path is looked for on the search path only if it is nothing but a name.
pub proof fn bare_names(path: &str, r: Option<String>, name: Seq<char>, dir: Seq<char>)
    requires
        call_ensures(doctor::bare_name, (path,), r),
        texts::is_step(name),
        path@ == name || path@ == dir + seq!['/'] + name,
    ensures
        path@ == name ==> (r matches Some(n) && n@ == name),
        path@ != name ==> r is None || dir.len() > 0,
        path@ == dir + seq!['/'] + name && dir.len() == 0 ==> r is None,
{
    if path@ == name {
        let none = Seq::<char>::empty();
        paths::components_below(none, name);
        assert(paths::below(none, name) == name) by {
            if name[0] == '/' {
                assert(name.contains('/'));
            }
            assert(none + name == name);
        }
        texts::lemma_no_steps();
    } else {
        texts::lemma_step(dir, name);
        if dir.len() == 0 {
            reveal_strlit("/");
            assert(dir + seq!['/'] == "/"@);
            texts::lemma_no_steps();
        }
    }
    if path@ == dir + seq!['/'] + name && dir.len() == 0 {
        assert(path@[0] == '/');
        if path@ == name {
            assert(name.contains('/'));
        }
    }
}

/// The messages of the remaining commands.
pub proof fn remaining_messages(
    n: usize,
    pruned: String,
    name: &str,
    missing: String,
    stderr: &str,
    chars: &Vec<char>,
    t: String,
    failed: String,
)
    requires
        call_ensures(cli::pruned_text, (n,), pruned),
        call_ensures(registry::not_registered_text, (name,), missing),
        call_ensures(refresh::evaluation_failed, (stderr,), failed),
        chars@ == stderr@,
        call_ensures(words::trimmed, (chars,), t),
    ensures
        pruned@ == "pruned "@ + text::decimal(n as nat) + " project(s)"@,
        missing@ == "project `"@ + name@ + "` is not registered"@,
        t@.len() == 0 ==> failed@ == "environment evaluation failed"@,
        t@.len() > 0 ==> failed@ == "environment evaluation failed: "@ + t@,
{
}

/// Completion is switched on in each shell in its own way.
pub proof fn completion_in_a_shell(shell: cli::CompletionShell, r: &'static str)
    requires
        call_ensures(cli::completion_setup, (shell,), r),
    ensures
        shell is Bash ==> r@ == "source <(COMPLETE=bash neals)"@,
        shell is Zsh ==> r@ == "source <(COMPLETE=zsh neals)"@,
        shell is Fish ==> r@ == "COMPLETE=fish neals | source"@,
        shell is Elvish ==> r@ == "eval (E:COMPLETE=elvish neals | slurp)"@,
        shell is Powershell ==> r@
            == "$env:COMPLETE = \"powershell\"; neals | Out-String | Invoke-Expression; Remove-Item Env:\\COMPLETE"@,
{
}

/// Texts are compared without regard to capitals.
pub proof fn compared_without_capitals(a: &Vec<char>, b: &Vec<char>, r: bool)
    requires
        call_ensures(words::same_folded, (a, b), r),
    ensures
        r <==> same_letters(a@, b@),
{
    lemma_same_letters(a@, b@);
}

/// What lies elsewhere than in the project and the directories for sockets may
/// not be removed, whatever its name.
pub proof fn elsewhere_may_not_be_wiped(
    path: &str,
    project: &str,
    root: &str,
    canon_root: &str,
    canon_parent: Option<&String>,
    roots: &Vec<String>,
    r: bool,
    dir: Seq<char>,
    name: Seq<char>,
)
    requires
        call_ensures(
            refresh::is_allowed_wipe_path,
            (path, project, root, canon_root, canon_parent, roots),
            r,
        ),
        texts::is_step(name),
        path@ == paths::below(dir, name),
        !paths::same_path(dir, root@),
        forall|i: int| 0 <= i < roots@.len() ==> !paths::same_path(dir, (#[trigger] roots@[i])@),
    ensures
        !r,
{
    reveal_strlit(".devenv");
    reveal_strlit(".neals");
    reveal_strlit(".");
    reveal_strlit("..");
    assert(".devenv"@.len() == 7);
    assert(".neals"@.len() == 6);
    assert("."@.len() == 1);
    assert(".."@.len() == 2);
    assert(!".devenv"@.contains('/'));
    assert(!".neals"@.contains('/'));
    paths::components_below(root@, ".devenv"@);
    paths::components_below(root@, ".neals"@);
    paths::components_below(dir, name);
    let c = paths::components(dir);
    let d = paths::components(root@);
    assert(c.push(name).drop_last() == c);
    assert(d.push(".devenv"@).drop_last() == d);
    assert(d.push(".neals"@).drop_last() == d);
    let rs = text::views(roots@);
    if refresh::is_one_of(rs, c) {
        let i = choose|i: int| 0 <= i < rs.len() && paths::components(#[trigger] rs[i]) == c;
        assert(rs[i] == roots@[i]@);
    }
}

/// A tool that prints nothing at all is found without a version.
pub proof fn tool_without_a_version(name: &str, run: &ToolRun, required: bool, r: Check)
    requires
        call_ensures(doctor::check_on_path, (name, run, required), r),
        *run matches ToolRun::Ran { stdout, stderr, .. } && stdout@.len() == 0 && stderr@.len()
            == 0,
    ensures
        r.ok && r.required == required && r.name@ == name@ && r.detail@ == "(no version)"@,
{
    reveal_strlit("(no version)");
    let v = "(no version)"@;
    if let ToolRun::Ran { stdout, stderr, .. } = *run {
        assert(words::lines(stderr@).len() == 0);
        assert(words::trim_start(v) == v);
        assert(v.last() == ')');
        assert(words::trim(v) == v);
    }
    assert(r@.detail == v);
}

} // verus!
