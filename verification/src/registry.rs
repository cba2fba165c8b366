//! The registered projects.
use crate::ipc;
use crate::json;
use crate::json::Node;
use crate::paths;
use crate::text;
use crate::xdg;
use crate::xdg::Dirs;
use vstd::prelude::*;
use vstd::string::*;

verus! {

/// A registered project.
#[derive(Debug, Clone, PartialEq, Eq)]
pub struct Project {
    pub name: String,
    pub path: String,
}

/// A registered project.
pub struct Entry {
    pub name: Seq<char>,
    pub path: Seq<char>,
}

impl View for Project {
    type V = Entry;

    open spec fn view(&self) -> Entry {
        Entry { name: self.name@, path: self.path@ }
    }
}

impl Project {
    /// Whether the directory of the project is gone.
    pub fn is_ghost(&self, path_is_dir: bool) -> (r: bool)
        ensures
            r == !path_is_dir,
    {
        !path_is_dir
    }

    /// A copy of the project.
    pub fn copied(&self) -> (r: Project)
        ensures
            r@ == self@,
    {
        Project { name: self.name.clone(), path: self.path.clone() }
    }
}

/// The registered projects, in the order in which they were registered.
#[derive(Debug, Clone, PartialEq, Eq)]
pub struct Registry {
    pub projects: Vec<Project>,
}

impl Default for Registry {
    fn default() -> (r: Self)
        ensures
            r@ == Seq::<Entry>::empty(),
    {
        let r = Registry { projects: Vec::new() };
        assert(r@ == Seq::<Entry>::empty());
        r
    }
}

impl View for Registry {
    type V = Seq<Entry>;

    open spec fn view(&self) -> Seq<Entry> {
        entries(self.projects@)
    }
}

/// What a list of projects says.
pub open spec fn entries(list: Seq<Project>) -> Seq<Entry> {
    list.map_values(|p: Project| p@)
}

/// Whether a project of that name is in the list.
pub open spec fn has_name(list: Seq<Entry>, name: Seq<char>) -> bool {
    exists|i: int| 0 <= i < list.len() && (#[trigger] list[i]).name == name
}

/// Whether `i` is the first position of that name.
pub open spec fn is_first(list: Seq<Entry>, name: Seq<char>, i: int) -> bool {
    &&& 0 <= i < list.len()
    &&& list[i].name == name
    &&& forall|j: int| 0 <= j < i ==> (#[trigger] list[j]).name != name
}

/// The message on a project that is not there.
pub open spec fn not_registered(name: Seq<char>) -> Seq<char> {
    "project `"@ + name + "` is not registered"@
}

/// The message on a project that is not there.
pub fn not_registered_text(name: &str) -> (r: String)
    ensures
        r@ == not_registered(name@),
{
    "project `".to_owned().concat(name).concat("` is not registered")
}

/// Those of a list whose flag is `want`, in order.
pub open spec fn select(list: Seq<Entry>, flags: Seq<bool>, want: bool) -> Seq<Entry>
    decreases list.len(),
{
    if list.len() == 0 {
        Seq::empty()
    } else {
        let rest = select(list.drop_last(), flags, want);
        if flags[list.len() - 1] == want {
            rest.push(list.last())
        } else {
            rest
        }
    }
}

impl Registry {
    /// The first position of a name.
    fn position(&self, name: &str) -> (r: Option<usize>)
        ensures
            match r {
                Some(i) => is_first(self@, name@, i as int),
                None => !has_name(self@, name@),
            },
    {
        for i in 0..self.projects.len()
            invariant
                forall|j: int| 0 <= j < i ==> (#[trigger] self@[j]).name != name@,
        {
            assert(self@[i as int] == self.projects@[i as int]@);
            if text::same(self.projects[i].name.as_str(), name) {
                return Some(i);
            }
        }
        None
    }

    /// The project of that name.
    pub fn get(&self, name: &str) -> (r: Option<&Project>)
        ensures
            match r {
                Some(p) => exists|i: int|
                    #[trigger] is_first(self@, name@, i) && p@ == self@[i],
                None => !has_name(self@, name@),
            },
    {
        match self.position(name) {
            Some(i) => {
                assert(is_first(self@, name@, i as int));
                Some(&self.projects[i])
            },
            None => None,
        }
    }

    /// Registers a project, unless its name is taken.
    pub fn add(&mut self, project: Project) -> (r: Result<(), String>)
        ensures
            match r {
                Ok(_) => {
                    &&& !has_name(old(self)@, project@.name)
                    &&& final(self)@ == old(self)@.push(project@)
                },
                Err(m) => {
                    &&& has_name(old(self)@, project@.name)
                    &&& m@ == "project `"@ + project@.name + "` is already registered"@
                    &&& final(self)@ == old(self)@
                },
            },
    {
        match self.get(project.name.as_str()) {
            Some(_) => Err(
                "project `".to_owned().concat(project.name.as_str()).concat(
                    "` is already registered",
                ),
            ),
            None => {
                self.projects.push(project);
                assert(self@ == old(self)@.push(project@));
                Ok(())
            },
        }
    }

    /// Registers a project in the place of the one of that name, which is
    /// handed back, or behind the others.
    pub fn upsert(&mut self, project: Project) -> (r: Option<Project>)
        ensures
            match r {
                Some(p) => exists|i: int|
                    #[trigger] is_first(old(self)@, project@.name, i) && p@ == old(self)@[i]
                        && final(self)@ == old(self)@.update(i, project@),
                None => {
                    &&& !has_name(old(self)@, project@.name)
                    &&& final(self)@ == old(self)@.push(project@)
                },
            },
    {
        match self.position(project.name.as_str()) {
            Some(i) => {
                let previous = self.projects[i].copied();
                self.projects.set(i, project);
                assert(self@ == old(self)@.update(i as int, project@));
                assert(is_first(old(self)@, project@.name, i as int));
                Some(previous)
            },
            None => {
                self.projects.push(project);
                assert(self@ == old(self)@.push(project@));
                None
            },
        }
    }

    /// Takes the project of that name out.
    pub fn remove(&mut self, name: &str) -> (r: Result<Project, String>)
        ensures
            match r {
                Ok(p) => exists|i: int|
                    #[trigger] is_first(old(self)@, name@, i) && p@ == old(self)@[i]
                        && final(self)@ == old(self)@.remove(i),
                Err(m) => {
                    &&& !has_name(old(self)@, name@)
                    &&& m@ == not_registered(name@)
                    &&& final(self)@ == old(self)@
                },
            },
    {
        match self.position(name) {
            Some(i) => {
                let p = self.projects.remove(i);
                assert(self@ == old(self)@.remove(i as int));
                assert(is_first(old(self)@, name@, i as int));
                Ok(p)
            },
            None => Err(not_registered_text(name)),
        }
    }

    /// Takes those projects out whose directory is gone, given for each
    /// project whether its path is a directory.
    pub fn take_ghosts(&mut self, is_dir: &Vec<bool>) -> (r: Vec<Project>)
        requires
            is_dir@.len() == old(self).projects@.len(),
        ensures
            entries(r@) == select(old(self)@, is_dir@, false),
            final(self)@ == select(old(self)@, is_dir@, true),
    {
        let ghost all = self@;
        let mut ghosts: Vec<Project> = Vec::new();
        let mut keep: Vec<Project> = Vec::new();
        for i in 0..self.projects.len()
            invariant
                is_dir@.len() == self.projects@.len(),
                all == self@,
                entries(ghosts@) == select(all.take(i as int), is_dir@, false),
                entries(keep@) == select(all.take(i as int), is_dir@, true),
        {
            assert(all.take(i + 1).drop_last() == all.take(i as int));
            let ghost g = entries(ghosts@);
            let ghost k = entries(keep@);
            let p = self.projects[i].copied();
            if p.is_ghost(is_dir[i]) {
                ghosts.push(p);
                assert(entries(ghosts@) == g.push(all[i as int]));
            } else {
                keep.push(p);
                assert(entries(keep@) == k.push(all[i as int]));
            }
        }
        assert(all.take(all.len() as int) == all);
        self.projects = keep;
        ghosts
    }
}

// ---------------------------------------------------------------------------
// The registry file
// ---------------------------------------------------------------------------
/// A project in the registry file.
pub open spec fn entry_json(e: Entry) -> json::Json {
    json::Json::Object(
        seq![("name"@, json::Json::Text(e.name)), ("path"@, json::Json::Text(e.path))],
    )
}

/// The content of the registry file.
pub open spec fn registry_json(list: Seq<Entry>) -> json::Json {
    json::single("projects"@, json::Json::List(list.map_values(|e: Entry| entry_json(e))))
}

/// The project that a value is: its fields by name in an object, where neither
/// may be given twice, or by position in a list.
pub open spec fn entry_in(j: json::Json) -> Option<Entry> {
    let (name, path) = match j {
        json::Json::Object(f) => if json::given_twice(f, "name"@) || json::given_twice(f, "path"@) {
            (None, None)
        } else {
            (json::field(f, "name"@), json::field(f, "path"@))
        },
        json::Json::List(l) => if l.len() == 2 {
            (Some(l[0]), Some(l[1]))
        } else {
            (None, None)
        },
        _ => (None, None),
    };
    match (ipc::text_in(name), ipc::text_in(path)) {
        (Some(name), Some(path)) => Some(Entry { name, path }),
        _ => None,
    }
}

/// The registry that a value is.
pub open spec fn registry_in(j: json::Json) -> Option<Seq<Entry>> {
    match ipc::only_field(Some(j), "projects"@) {
        Some(json::Json::List(l)) => if forall|i: int|
            0 <= i < l.len() ==> entry_in(#[trigger] l[i]) is Some {
            Some(l.map_values(|x: json::Json| entry_in(x)->0))
        } else {
            None
        },
        _ => None,
    }
}

proof fn lemma_field_names()
    ensures
        "name"@ != "path"@,
{
    reveal_strlit("name");
    reveal_strlit("path");
    assert("name"@[0] == 'n');
    assert("path"@[0] == 'p');
}

fn entry_value(p: &Project) -> (r: serde_json::Value)
    ensures
        json::json_tree(r) == entry_json(p@),
{
    let mut f: Vec<(String, serde_json::Value)> = Vec::new();
    f.push(("name".to_owned(), json::text_value(p.name.clone())));
    f.push(("path".to_owned(), json::text_value(p.path.clone())));
    proof {
        lemma_field_names();
    }
    assert(json::field_trees(f@) == entry_json(p@)->Object_0);
    json::object_value(f)
}

fn entry_from(v: Node) -> (r: Option<Project>)
    ensures
        match r {
            Some(p) => entry_in(v@) == Some(p@),
            None => entry_in(v@) is None,
        },
{
    proof {
        lemma_field_names();
        json::lemma_inside(v);
    }
    let (name, path) = match v {
        Node::Object(f) => {
            let mut f = f;
            if json::repeats(&f, "name") || json::repeats(&f, "path") {
                (None, None)
            } else {
                let name = json::take_field(&mut f, "name");
                let path = json::take_field(&mut f, "path");
                (name, path)
            }
        },
        Node::List(l) => {
            let mut l = l;
            let ghost all = json::nodes(l@);
            if l.len() == 2 {
                let name = ipc::take_first(&mut l);
                let path = ipc::take_first(&mut l);
                (name, path)
            } else {
                (None, None)
            }
        },
        _ => (None, None),
    };
    let name = ipc::text_from(name)?;
    let path = ipc::text_from(path)?;
    Some(Project { name, path })
}

/// The registry that a value is.
pub fn registry_from_node(v: Node) -> (r: Option<Registry>)
    ensures
        match r {
            Some(x) => registry_in(v@) == Some(x@),
            None => registry_in(v@) is None,
        },
{
    let list = ipc::take_only_field(Some(v), "projects")?;
    proof {
        json::lemma_inside(list);
    }
    let l = match list {
        Node::List(l) => l,
        _ => {
            return None;
        },
    };
    let ghost all = json::nodes(l@);
    let ghost given = l@;
    let mut projects: Vec<Project> = Vec::new();
    for x in it: l
        invariant
            it.seq() == given,
            all == json::nodes(given),
            registry_in(v@) is Some ==> forall|i: int|
                0 <= i < all.len() ==> entry_in(#[trigger] all[i]) is Some,
            projects@.len() == it.index(),
            forall|i: int|
                0 <= i < projects@.len() ==> entry_in(#[trigger] all[i]) == Some(projects@[i]@),
    {
        let ghost k = it.index() as int;
        assert(all[k] == x@);
        match entry_from(x) {
            Some(p) => projects.push(p),
            None => {
                assert(entry_in(all[k]) is None);
                return None;
            },
        }
    }
    assert(entries(projects@) == all.map_values(|x: json::Json| entry_in(x)->0));
    Some(Registry { projects })
}

/// The value that a registry is stored as.
pub fn registry_value(registry: &Registry) -> (r: serde_json::Value)
    ensures
        json::json_tree(r) == registry_json(registry@),
{
    let mut l: Vec<serde_json::Value> = Vec::new();
    let ghost want = registry@.map_values(|e: Entry| entry_json(e));
    for i in 0..registry.projects.len()
        invariant
            want == registry@.map_values(|e: Entry| entry_json(e)),
            json::trees(l@) == want.take(i as int),
    {
        let ghost before = json::trees(l@);
        l.push(entry_value(&registry.projects[i]));
        assert(json::trees(l@) == before.push(want[i as int]));
        assert(want.take(i + 1) == want.take(i as int).push(want[i as int]));
    }
    assert(want.take(want.len() as int) == want);
    json::single_value("projects", json::list_value(l))
}

/// The registry that a text holds.
pub open spec fn stored(data: Seq<char>) -> Option<Seq<Entry>> {
    registry_in(json::json_read(data))
}

/// Whether `r` is the registry in the file at `path`, which holds `data` if
/// it is there. Without the file the registry is empty.
pub open spec fn is_loaded(
    r: Result<Registry, String>,
    path: Seq<char>,
    data: Option<Seq<char>>,
) -> bool {
    match data {
        None => r matches Ok(x) && x@ == Seq::<Entry>::empty(),
        Some(d) => match stored(d) {
            Some(list) => r matches Ok(x) && x@ == list,
            None => r matches Err(m) && m@ == "failed to parse "@ + path,
        },
    }
}

/// How a registry is written so that the file is never half written: the
/// directory is made, the data goes to a temporary file, which then replaces
/// the file.
#[derive(Debug, Clone, PartialEq, Eq)]
pub struct SavePlan {
    pub dir: Option<String>,
    pub tmp_path: String,
    pub path: String,
    pub data: String,
}

/// Whether `r` says how to write `list` to `path`.
pub open spec fn is_save_plan(r: Result<SavePlan, String>, list: Seq<Entry>, path: Seq<char>) -> bool {
    match paths::last_name(path) {
        None => r matches Err(m) && m@ == "registry path has no file name"@,
        Some(name) => {
            &&& r matches Ok(plan)
            &&& xdg::text_of(plan.dir) == paths::parent_path(path)
            &&& plan.tmp_path@ == paths::renamed(path, name + ".tmp"@)
            &&& plan.path@ == path
            &&& plan.data@ == json::json_pretty(registry_json(list))
            &&& stored(plan.data@) == Some(list)
        },
    }
}

impl Registry {
    /// The registry in the file at `path`, which holds `data` if it is there.
    pub fn load_from(path: &str, data: Option<&str>) -> (r: Result<Registry, String>)
        ensures
            is_loaded(
                r,
                path@,
                match data {
                    Some(d) => Some(d@),
                    None => None,
                },
            ),
    {
        match data {
            None => Ok(Registry::default()),
            Some(d) => {
                match registry_from_node(json::read_text(d)) {
                    Some(x) => Ok(x),
                    None => Err("failed to parse ".to_owned().concat(path)),
                }
            },
        }
    }

    /// The registry of the user, whose file holds `data` if it is there.
    pub fn load(dirs: &Dirs, data: Option<&str>) -> (r: Result<Registry, String>)
        ensures
            match dirs.registry_path() {
                Some(p) => is_loaded(
                    r,
                    p,
                    match data {
                        Some(d) => Some(d@),
                        None => None,
                    },
                ),
                None => r matches Err(m) && m@ == "$HOME is not set"@,
            },
    {
        match xdg::projects_file(dirs) {
            Ok(p) => Registry::load_from(p.as_str(), data),
            Err(m) => Err(m),
        }
    }

    /// How to write the registry to `path`.
    pub fn save_to(&self, path: &str) -> (r: Result<SavePlan, String>)
        ensures
            is_save_plan(r, self@, path@),
    {
        let dir = paths::parent(path);
        let name = match paths::file_name(path) {
            Some(n) => n,
            None => {
                return Err("registry path has no file name".to_owned());
            },
        };
        let tmp_path = paths::with_file_name(path, name.concat(".tmp").as_str());
        let ghost tree = registry_json(self@);
        proof {
            registry_reads_back(self@);
            json::lemma_readable_plain(tree, json::LEVELS as nat, 127);
        }
        match json::pretty_text(&registry_value(self)) {
            Some(data) => {
                proof {
                    json::read_what_was_written(data@, tree, json::LEVELS as nat);
                }
                Ok(SavePlan { dir, tmp_path, path: path.to_owned(), data })
            },
            None => Err("failed to serialize registry".to_owned()),
        }
    }

    /// How to write the registry of the user.
    pub fn save(&self, dirs: &Dirs) -> (r: Result<SavePlan, String>)
        ensures
            match dirs.registry_path() {
                Some(p) => is_save_plan(r, self@, p),
                None => r matches Err(m) && m@ == "$HOME is not set"@,
            },
    {
        match xdg::projects_file(dirs) {
            Ok(p) => self.save_to(p.as_str()),
            Err(m) => Err(m),
        }
    }
}

// ---------------------------------------------------------------------------
// Laws
// ---------------------------------------------------------------------------
proof fn lemma_entry_reads_back(e: Entry, depth: nat)
    requires
        depth > 0,
    ensures
        entry_in(entry_json(e)) == Some(e),
        json::is_readable(entry_json(e), depth),
{
    lemma_field_names();
    let f = entry_json(e)->Object_0;
    assert(json::distinct_names(f));
    json::lemma_field_at(f, 0);
    json::lemma_field_at(f, 1);
    assert forall|i: int| 0 <= i < f.len() implies json::is_readable(
        (#[trigger] f[i]).1,
        (depth - 1) as nat,
    ) by {
        assert(i == 0 || i == 1);
    }
}

/// The value of a registry reads as that registry.
pub proof fn registry_reads_back(list: Seq<Entry>)
    ensures
        registry_in(registry_json(list)) == Some(list),
        json::is_readable(registry_json(list), json::LEVELS as nat),
{
    let l = list.map_values(|e: Entry| entry_json(e));
    assert forall|i: int| 0 <= i < l.len() implies entry_in(#[trigger] l[i]) == Some(list[i])
        && json::is_readable(l[i], 3) by {
        lemma_entry_reads_back(list[i], 3);
    }
    assert(l.map_values(|x: json::Json| entry_in(x)->0) == list);
    assert(json::is_readable(json::Json::List(l), 4));
    ipc::lemma_single("projects"@, json::Json::List(l), json::LEVELS as nat);
}

/// No name occurs twice.
pub open spec fn distinct_names(list: Seq<Entry>) -> bool {
    forall|i: int, j: int|
        0 <= i < j < list.len() ==> (#[trigger] list[i]).name != (#[trigger] list[j]).name
}

/// A registry without duplicates stays without: adding a name that is not
/// there, replacing a project by one of the same name, and taking projects
/// out all keep names distinct.
pub proof fn names_stay_distinct(list: Seq<Entry>, e: Entry, i: int, flags: Seq<bool>, want: bool)
    requires
        distinct_names(list),
    ensures
        !has_name(list, e.name) ==> distinct_names(list.push(e)),
        is_first(list, e.name, i) ==> distinct_names(list.update(i, e)),
        0 <= i < list.len() ==> distinct_names(list.remove(i)),
        distinct_names(select(list, flags, want)),
{
    if is_first(list, e.name, i) {
        let u = list.update(i, e);
        assert forall|a: int, b: int| 0 <= a < b < u.len() implies (#[trigger] u[a]).name != (
        #[trigger] u[b]).name by {
            assert(list[a].name == u[a].name);
            assert(list[b].name == u[b].name);
        }
    }
    if 0 <= i < list.len() {
        let u = list.remove(i);
        assert forall|a: int, b: int| 0 <= a < b < u.len() implies (#[trigger] u[a]).name != (
        #[trigger] u[b]).name by {
            let a2 = if a < i { a } else { a + 1 };
            let b2 = if b < i { b } else { b + 1 };
            assert(u[a] == list[a2]);
            assert(u[b] == list[b2]);
        }
    }
    lemma_select(list, flags, want);
}

proof fn lemma_select(list: Seq<Entry>, flags: Seq<bool>, want: bool)
    requires
        distinct_names(list),
    ensures
        distinct_names(select(list, flags, want)),
        forall|k: int|
            0 <= k < select(list, flags, want).len() ==> has_name(
                list,
                (#[trigger] select(list, flags, want)[k]).name,
            ),
    decreases list.len(),
{
    if list.len() > 0 {
        let front = list.drop_last();
        assert(forall|i: int| 0 <= i < front.len() ==> front[i] == list[i]);
        assert(list[list.len() - 1] == list.last());
        lemma_select(front, flags, want);
        let s = select(list, flags, want);
        let t = select(front, flags, want);
        assert forall|k: int| 0 <= k < t.len() implies has_name(list, (#[trigger] t[k]).name)
            && t[k].name != list.last().name by {
            let i = choose|i: int| 0 <= i < front.len() && (#[trigger] front[i]).name == t[k].name;
            assert(list[i].name == t[k].name);
        }
        assert forall|k: int| 0 <= k < s.len() implies has_name(list, (#[trigger] s[k]).name) by {
            if k < t.len() {
                assert(s[k] == t[k]);
            }
        }
    }
}

/// A project that was added is found under its name, and taking it out again
/// leaves the registry as it was.
pub proof fn added_project_is_found(list: Seq<Entry>, e: Entry)
    requires
        !has_name(list, e.name),
    ensures
        is_first(list.push(e), e.name, list.len() as int),
        list.push(e).remove(list.len() as int) == list,
        forall|i: int| #[trigger] is_first(list.push(e), e.name, i) ==> i == list.len(),
        forall|name: Seq<char>, i: int|
            name != e.name ==> is_first(list, name, i) == #[trigger] is_first(
                list.push(e),
                name,
                i,
            ),
{
    let all = list.push(e);
    assert(all[list.len() as int] == e);
    assert forall|j: int| 0 <= j < list.len() implies (#[trigger] all[j]).name != e.name by {
        assert(list[j] == all[j]);
    }
    assert(all.remove(list.len() as int) == list);
    assert forall|name: Seq<char>, i: int| name != e.name implies is_first(list, name, i)
        == #[trigger] is_first(all, name, i) by {
        assert(forall|j: int| 0 <= j < list.len() ==> #[trigger] all[j] == list[j]);
        if is_first(all, name, i) {
            assert(i < list.len());
            assert forall|j: int| 0 <= j < i implies (#[trigger] list[j]).name != name by {
                assert(all[j] == list[j]);
            }
        }
    }
}

/// A project that replaces another of its name is found where that one was,
/// and every other name is found where it was.
pub proof fn replaced_project_is_found(list: Seq<Entry>, e: Entry, i: int)
    requires
        is_first(list, e.name, i),
    ensures
        is_first(list.update(i, e), e.name, i),
        list.update(i, e)[i] == e,
        forall|name: Seq<char>, k: int|
            name != e.name ==> is_first(list, name, k) == #[trigger] is_first(
                list.update(i, e),
                name,
                k,
            ),
{
    let all = list.update(i, e);
    assert forall|j: int| 0 <= j < list.len() implies (#[trigger] all[j]).name == list[j].name by {}
    assert forall|name: Seq<char>, k: int| name != e.name implies is_first(list, name, k)
        == #[trigger] is_first(all, name, k) by {
        if is_first(all, name, k) {
            assert forall|j: int| 0 <= j < k implies (#[trigger] list[j]).name != name by {
                assert(all[j].name == list[j].name);
            }
        }
    }
}

} // verus!
