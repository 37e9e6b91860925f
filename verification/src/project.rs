//! The project directory: the id-to-name table that labels records for
//! display. All readers share one snapshot; a refresh replaces the snapshot
//! wholesale, never a single entry in place.

use vstd::prelude::*;

use crate::text::{char_end, chars_of, i64_to_dec, lemma_char_end, parse_i64_chars, spec_char_end, spec_i64_text, spec_parse_i64, spec_trim, trim_range};
use vstd::string::StringExecFns;

verus! {

/// One known project: its id, and its name once somebody has set one.
pub struct ProjectItem {
    pub id: Option<i64>,
    pub name: Option<String>,
}

/// The first project of `items` whose id is `id`.
pub open spec fn spec_find_project(items: Seq<ProjectItem>, id: i64) -> Option<ProjectItem>
    decreases items.len(),
{
    if items.len() == 0 {
        None
    } else if items[0].id == Some(id) {
        Some(items[0])
    } else {
        spec_find_project(items.skip(1), id)
    }
}

/// The display name of project `id` in `items`: its name when one is set,
/// and the decimal rendering of the id otherwise.
pub open spec fn spec_lookup_name(items: Seq<ProjectItem>, id: i64) -> Seq<char> {
    match spec_find_project(items, id) {
        Some(p) => match p.name {
            Some(n) => n@,
            None => spec_i64_text(id as int),
        },
        None => spec_i64_text(id as int),
    }
}

/// The first project of `items` whose id is `id`, by reference.
pub fn find_project<'a>(items: &'a Vec<ProjectItem>, id: i64) -> (r: Option<&'a ProjectItem>)
    ensures
        match r {
            Some(p) => spec_find_project(items@, id) == Some(*p),
            None => spec_find_project(items@, id) is None,
        },
{
    let mut i: usize = 0;
    assert(items@.skip(0) =~= items@);
    while i < items.len()
        invariant
            i <= items.len(),
            spec_find_project(items@, id) == spec_find_project(items@.skip(i as int), id),
        decreases items.len() - i,
    {
        assert(items@.skip(i as int)[0] == items@[i as int]);
        let matches_id: bool = match items[i].id {
            Some(pid) => pid == id,
            None => false,
        };
        if matches_id {
            return Some(&items[i]);
        }
        assert(items@.skip(i as int).skip(1) =~= items@.skip(i as int + 1));
        i = i + 1;
    }
    None
}

/// The display name of project `id` in `items`.
pub fn lookup_name_in(items: &Vec<ProjectItem>, id: i64) -> (r: String)
    ensures
        r@ == spec_lookup_name(items@, id),
{
    match find_project(items, id) {
        Some(p) => match &p.name {
            Some(n) => n.clone(),
            None => i64_to_dec(id),
        },
        None => i64_to_dec(id),
    }
}

/// The in-memory directory of known projects. Its one mutation is
/// `refresh`, which installs a whole new table; a failed load upstream
/// simply never calls it, leaving the previous snapshot in place.
pub struct ProjectDirectory {
    items: Vec<ProjectItem>,
}

impl View for ProjectDirectory {
    type V = Seq<ProjectItem>;

    closed spec fn view(&self) -> Seq<ProjectItem> {
        self.items@
    }
}

impl ProjectDirectory {
    /// An empty directory, for before the first load.
    pub fn new() -> (r: ProjectDirectory)
        ensures
            r@ =~= Seq::<ProjectItem>::empty(),
    {
        ProjectDirectory { items: Vec::new() }
    }

    /// Installs `table` as the new snapshot, replacing the old one
    /// wholesale.
    pub fn refresh(&mut self, table: Vec<ProjectItem>)
        ensures
            final(self)@ == table@,
    {
        self.items = table;
    }

    /// The current snapshot.
    pub fn snapshot(&self) -> (r: &Vec<ProjectItem>)
        ensures
            r@ == self@,
    {
        &self.items
    }

    /// The display name of project `id`: its name when the directory knows
    /// one, the decimal rendering of the id otherwise.
    pub fn lookup_name(&self, id: i64) -> (r: String)
        ensures
            r@ == spec_lookup_name(self@, id),
    {
        lookup_name_in(&self.items, id)
    }
}

fn clone_opt_name(o: &Option<String>) -> (r: Option<String>)
    ensures
        r == *o,
{
    match o {
        Some(s) => Some(s.clone()),
        None => None,
    }
}

/// A field-for-field copy of a projects table, for installing as a snapshot.
pub fn clone_projects(items: &Vec<ProjectItem>) -> (r: Vec<ProjectItem>)
    ensures
        r@ == items@,
{
    let mut out: Vec<ProjectItem> = Vec::new();
    let mut i: usize = 0;
    while i < items.len()
        invariant
            i <= items@.len(),
            out@ =~= items@.subrange(0, i as int),
        decreases items@.len() - i,
    {
        out.push(ProjectItem { id: items[i].id, name: clone_opt_name(&items[i].name) });
        assert(out@.last() == items@[i as int]);
        assert(out@ =~= items@.subrange(0, i as int + 1));
        i = i + 1;
    }
    assert(items@.subrange(0, items@.len() as int) =~= items@);
    out
}

/// The body of a rename request: the new name for a project.
pub struct UpdateProjectForm {
    pub name: String,
}

/// What one `key=value` entry of the startup configuration names: the
/// project id and its non-empty name, both trimmed of blanks. An entry
/// without `=`, with an id that is not a decimal i64, or with an empty name
/// names nothing.
pub open spec fn spec_init_entry(seg: Seq<char>) -> Option<(i64, Seq<char>)> {
    let eq = spec_char_end(seg, 0, '=');
    if eq >= seg.len() {
        None
    } else {
        let key = spec_trim(seg.subrange(0, eq));
        let value = spec_trim(seg.subrange(eq + 1, seg.len() as int));
        match spec_parse_i64(key) {
            Some(id) => if value.len() > 0 {
                Some((id, value))
            } else {
                None
            },
            None => None,
        }
    }
}

/// The projects the startup configuration from position `i` on names: its
/// semicolon-separated entries, malformed ones skipped.
pub open spec fn spec_init_list(s: Seq<char>, i: int) -> Seq<(i64, Seq<char>)>
    decreases s.len() - i,
    via spec_init_list_decreases
{
    if !(0 <= i <= s.len()) {
        Seq::<(i64, Seq<char>)>::empty()
    } else {
        let e = spec_char_end(s, i, ';');
        let head = (match spec_init_entry(s.subrange(i, e)) {
            Some(p) => seq![p],
            None => Seq::<(i64, Seq<char>)>::empty(),
        });
        if e >= s.len() {
            head
        } else {
            head + spec_init_list(s, e + 1)
        }
    }
}

#[via_fn]
proof fn spec_init_list_decreases(s: Seq<char>, i: int) {
    if 0 <= i <= s.len() {
        lemma_char_end(s, i, ';');
    }
}

/// The projects the whole startup configuration names; empty text names
/// none.
pub open spec fn spec_init_projects(s: Seq<char>) -> Seq<(i64, Seq<char>)> {
    if s.len() == 0 {
        Seq::<(i64, Seq<char>)>::empty()
    } else {
        spec_init_list(s, 0)
    }
}

fn chars_to_string(t: &Vec<char>) -> (r: String)
    ensures
        r@ == t@,
{
    let mut out = String::new();
    let mut i: usize = 0;
    while i < t.len()
        invariant
            i <= t@.len(),
            out@ =~= t@.subrange(0, i as int),
        decreases t@.len() - i,
    {
        crate::text::push_char(&mut out, t[i]);
        assert(out@ =~= t@.subrange(0, i + 1));
        i = i + 1;
    }
    assert(t@.subrange(0, t@.len() as int) =~= t@);
    out
}

/// Parses the startup project configuration, `id=name` entries separated by
/// semicolons: each well-formed entry becomes a named project, and each
/// malformed one — no `=`, an id that is not a decimal i64, or an empty
/// name — is skipped, never an error.
#[verifier::loop_isolation(false)]
#[verifier::rlimit(60)]
pub fn parse_init_projects(projects_init: &str) -> (r: Vec<ProjectItem>)
    ensures
        ({
            let want = spec_init_projects(projects_init@);
            &&& r@.len() == want.len()
            &&& forall|i: int|
                0 <= i < want.len() ==> {
                    &&& (#[trigger] r@[i]).id == Some(want[i].0)
                    &&& (r@[i].name matches Some(nm) && nm@ == want[i].1)
                }
        }),
{
    let ghost want = spec_init_projects(projects_init@);
    let t: Vec<char> = chars_of(projects_init);
    let mut out: Vec<ProjectItem> = Vec::new();
    if t.len() == 0 {
        return out;
    }
    let n: usize = t.len();
    let mut i: usize = 0;
    let mut done: bool = false;
    while !done
        invariant
            0 <= i <= n,
            n == t@.len(),
            want.len() == out@.len() + (if done {
                Seq::<(i64, Seq<char>)>::empty()
            } else {
                spec_init_list(t@, i as int)
            }).len(),
            forall|j: int|
                0 <= j < out@.len() ==> {
                    &&& (#[trigger] out@[j]).id == Some(want[j].0)
                    &&& (out@[j].name matches Some(nm) && nm@ == want[j].1)
                },
            !done ==> forall|j: int|
                0 <= j < spec_init_list(t@, i as int).len() ==> #[trigger] spec_init_list(
                    t@,
                    i as int,
                )[j] == want[out@.len() + j],
        decreases (if done {
            0int
        } else {
            n - i + 1
        }),
    {
        let ghost rest = spec_init_list(t@, i as int);
        let e: usize = char_end(&t, i, ';');
        proof {
            lemma_char_end(t@, i as int, ';');
        }
        let ghost seg = t@.subrange(i as int, e as int);
        let ghost head_entry = spec_init_entry(seg);
        let eq: usize = char_end(&t, i, '=');
        proof {
            lemma_char_end(t@, i as int, '=');
        }
        if eq < e {
            // the first `=` of the segment lies inside it
            proof {
                assert(spec_char_end(seg, 0, '=') == eq - i) by {
                    lemma_char_end(seg, 0, '=');
                    assert(forall|j: int| 0 <= j < seg.len() ==> seg[j] == t@[i + j]);
                    if spec_char_end(seg, 0, '=') < eq - i {
                        assert(seg[spec_char_end(seg, 0, '=')] == '=');
                        assert(t@[i + spec_char_end(seg, 0, '=')] == '=');
                        assert(false);
                    }
                    if spec_char_end(seg, 0, '=') > eq - i {
                        assert(seg[eq - i] == '=');
                        assert(false);
                    }
                }
            }
            let key: Vec<char> = trim_range(&t, i, eq);
            let value: Vec<char> = trim_range(&t, eq + 1, e);
            proof {
                assert(seg.subrange(0, eq - i) =~= t@.subrange(i as int, eq as int));
                assert(seg.subrange(eq - i + 1, seg.len() as int) =~= t@.subrange(
                    eq as int + 1,
                    e as int,
                ));
            }
            match parse_i64_chars(&key) {
                Some(id) => {
                    if value.len() > 0 {
                        proof {
                            assert(head_entry == Some((id, value@)));
                        }
                        let nm: String = chars_to_string(&value);
                        let ghost nmg = nm@;
                        out.push((ProjectItem { id: Some(id), name: Some(nm) }));
                        proof {
                            assert(out@.last().id == Some(id));
                            assert(out@.last().name matches Some(x) && x@ == value@);
                            assert(forall|j: int|
                                0 <= j < out@.len() - 1 ==> out@[j] == #[trigger] out@.subrange(
                                    0,
                                    out@.len() - 1,
                                )[j]);
                        }
                    } else {
                        proof {
                            assert(head_entry is None);
                        }
                    }
                },
                None => {
                    proof {
                        assert(head_entry is None);
                    }
                },
            }
        } else {
            proof {
                assert(spec_char_end(seg, 0, '=') >= seg.len()) by {
                    lemma_char_end(seg, 0, '=');
                    assert(forall|j: int| 0 <= j < seg.len() ==> seg[j] == t@[i + j]);
                    if spec_char_end(seg, 0, '=') < seg.len() {
                        assert(seg[spec_char_end(seg, 0, '=')] == '=');
                        assert(t@[i + spec_char_end(seg, 0, '=')] == '=');
                        assert(i + spec_char_end(seg, 0, '=') < e);
                        assert(false);
                    }
                }
                assert(head_entry is None);
            }
        }
        proof {
            let head = (match head_entry {
                Some(p) => seq![p],
                None => Seq::<(i64, Seq<char>)>::empty(),
            });
            let rest2 = (if e >= n {
                Seq::<(i64, Seq<char>)>::empty()
            } else {
                spec_init_list(t@, e as int + 1)
            });
            if e >= n {
                assert(rest =~= head + rest2);
            } else {
                assert(rest == head + rest2);
            }
            assert(rest.len() == head.len() + rest2.len());
            assert(forall|j: int| 0 <= j < rest2.len() ==> #[trigger] rest2[j] == rest[head.len() + j]);
            if head_entry is Some {
                assert(rest[0] == head[0]);
                assert(head[0] == head_entry->0);
            }
        }
        if e >= n {
            done = true;
        } else {
            i = e + 1;
        }
    }
    out
}

} // verus!
