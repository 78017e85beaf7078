//! The orchestrator: one configuration document bound to one project
//! identity. Loading, spawning and environment writes live with the caller;
//! everything the orchestrator decides — which project actions a document
//! declares, which action a request selects, and what context the dispatch
//! propagates — is computed here.
use vstd::prelude::*;

use crate::GobiError;
use crate::GobiResult;
use crate::file::IndexView;
use crate::file::TomlEntry;
use crate::file::ValView;
use crate::file::doc_get;
use crate::recipes::Action;
use crate::recipes::ActionView;
use crate::recipes::action_views;
use crate::recipes::ambiguous_msg;
use crate::recipes::find_action_index;
use crate::recipes::not_found_msg;
use crate::recipes::resolution_ambiguous;
use crate::recipes::resolution_fails;
use crate::recipes::resolution_ok;
use crate::strutil::str_eq;

verus! {

/// One project document bound to a project identity: the root document
/// carries the reserved identity "gobi"; a sub-project is named by its
/// registration key. Holds no help text: help is read from the document by
/// the caller and handed to `to_action`.
#[derive(Debug)]
pub struct GobiAction {
    pub name: String,
    pub subname: String,
    pub priority: bool,
    pub path: String,
}

/// Specification-level project action.
pub struct GobiActionView {
    pub name: Seq<char>,
    pub subname: Seq<char>,
    pub priority: bool,
    pub path: Seq<char>,
}

impl View for GobiAction {
    type V = GobiActionView;

    open spec fn view(&self) -> GobiActionView {
        GobiActionView {
            name: self.name@,
            subname: self.subname@,
            priority: self.priority,
            path: self.path@,
        }
    }
}

/// The identity a project registered under `name` carries: an empty name
/// means the root project, "gobi".
pub open spec fn project_identity(name: Seq<char>) -> Seq<char> {
    if name.len() == 0 {
        "gobi"@
    } else {
        name
    }
}

impl GobiAction {
    /// A project action bound to a document path. An empty registration
    /// name means the root project, "gobi". Project actions never carry
    /// the priority flag.
    pub fn new(name: &str, file_path: String) -> (r: GobiAction)
        ensures
            r@.name == project_identity(name@),
            r@.subname == project_identity(name@),
            r@.priority == false,
            r@.path == file_path@,
    {
        let owned = if name.is_empty() {
            "gobi".to_owned()
        } else {
            name.to_owned()
        };
        GobiAction {
            name: owned.clone(),
            subname: owned,
            priority: false,
            path: file_path,
        }
    }

    /// This project action as a resolvable action, with the given help text.
    pub fn to_action(&self, help: String) -> (r: Action)
        ensures
            r@.name == self@.name,
            r@.subname == self@.subname,
            r@.priority == self@.priority,
            r@.help == help@,
    {
        Action {
            name: self.name.clone(),
            subname: self.subname.clone(),
            priority: self.priority,
            help,
        }
    }

    /// The help text of a loaded project document: the string under
    /// [gobi.help], or a stock sentence naming the project.
    pub fn help_text(&self, data: &TomlEntry) -> (r: String)
        ensures
            ({
                let at_help = doc_get(
                    data.data@,
                    seq![IndexView::Key("gobi"@), IndexView::Key("help"@)],
                );
                match at_help {
                    Some(ValView::Str(s)) => r@ == s,
                    _ => r@ == "Project '"@ + self@.subname + "' has no help"@,
                }
            }),
    {
        let mut path: Vec<crate::file::EntryIndex> = Vec::new();
        path.push(crate::file::EntryIndex::Key("gobi".to_owned()));
        path.push(crate::file::EntryIndex::Key("help".to_owned()));
        proof {
            assert(crate::file::path_view(path@) =~= seq![
                IndexView::Key("gobi"@),
                IndexView::Key("help"@),
            ]);
        }
        let fallback = || -> (f: String)
            ensures
                f@ == "Project '"@ + self@.subname + "' has no help"@,
            {
                let mut m = "Project '".to_owned();
                m.append(self.subname.as_str());
                m.append("' has no help");
                proof {
                    reveal_strlit("Project '");
                    reveal_strlit("' has no help");
                }
                m
            };
        match data.get_nested(&path) {
            Some(entry) => match entry.get_string() {
                Some(s) => s.to_owned(),
                None => fallback(),
            },
            None => fallback(),
        }
    }
}

/// The decision at the head of a dispatch: an empty request is refused with
/// a dedicated error; otherwise the first argument is resolved against the
/// action list and the chosen position is returned.
pub fn select_action(actions: &Vec<Action>, args: &Vec<String>) -> (r: GobiResult<usize>)
    ensures
        match r {
            Ok(i) => args@.len() > 0 && resolution_ok(
                action_views(actions@),
                args@[0]@,
                i as int,
            ),
            Err(e) => e.code == 1 && if args@.len() == 0 {
                e.msg@ == "No action specified"@
            } else {
                resolution_fails(action_views(actions@), args@[0]@) && e.msg@ == (
                if resolution_ambiguous(action_views(actions@), args@[0]@) {
                    ambiguous_msg(args@[0]@)
                } else {
                    not_found_msg(args@[0]@)
                })
            },
        },
{
    if args.len() == 0 {
        return Err(GobiError { code: 1, msg: "No action specified".to_owned() });
    }
    find_action_index(args[0].as_str(), actions)
}

/// The context a dispatch propagates: the active file, its directory, the
/// selected action's short and qualified names, and the project identity.
/// The sixth entry of the context is the project chain, returned apart: the
/// root project clears it; a sub-project appends its identity to the old
/// chain with a ";" separator.
pub fn context_updates(
    project: &GobiAction,
    dir: &str,
    action: &Action,
    old_chain: Option<&String>,
) -> (r: (Vec<(String, String)>, Option<String>))
    ensures
        r.0@.len() == 5,
        r.0@[0].0@ == "GOBI_FILE"@ && r.0@[0].1@ == project@.path,
        r.0@[1].0@ == "GOBI_DIR"@ && r.0@[1].1@ == dir@,
        r.0@[2].0@ == "GOBI_ACTION"@ && r.0@[2].1@ == action@.subname,
        r.0@[3].0@ == "GOBI_ACTION_FULL"@ && r.0@[3].1@ == action@.name,
        r.0@[4].0@ == "GOBI_PROJECT"@ && r.0@[4].1@ == project@.subname,
        match r.1 {
            None => project@.name == "gobi"@,
            Some(chain) => project@.name != "gobi"@ && chain@ == (match old_chain {
                Some(old) => old@ + seq![';'] + project@.subname,
                None => project@.subname,
            }),
        },
{
    let mut pairs: Vec<(String, String)> = Vec::new();
    pairs.push(("GOBI_FILE".to_owned(), project.path.clone()));
    pairs.push(("GOBI_DIR".to_owned(), dir.to_owned()));
    pairs.push(("GOBI_ACTION".to_owned(), action.subname.clone()));
    pairs.push(("GOBI_ACTION_FULL".to_owned(), action.name.clone()));
    pairs.push(("GOBI_PROJECT".to_owned(), project.subname.clone()));
    let chain: Option<String> = if str_eq(project.name.as_str(), "gobi") {
        None
    } else {
        match old_chain {
            Some(old) => {
                let mut c = old.clone();
                c.append(";");
                proof {
                    reveal_strlit(";");
                    assert(c@ =~= old@ + seq![';']);
                }
                c.append(project.subname.as_str());
                Some(c)
            },
            None => Some(project.subname.clone()),
        }
    };
    (pairs, chain)
}

/// The orchestrator's own recipe: it reads the [gobi.projects] table of a
/// document and emits one project action per declared sub-project.
#[derive(Debug)]
pub struct GobiRecipe {}

/// The (name, path) pairs among a table's entries whose value is a string,
/// in table order.
pub open spec fn str_projects(entries: Seq<(Seq<char>, ValView)>) -> Seq<(Seq<char>, Seq<char>)>
    decreases entries.len(),
{
    if entries.len() == 0 {
        Seq::empty()
    } else {
        match entries[0].1 {
            ValView::Str(p) => seq![(entries[0].0, p)] + str_projects(entries.drop_first()),
            _ => str_projects(entries.drop_first()),
        }
    }
}

/// The sub-projects a document declares: the string-valued entries of its
/// [gobi.projects] table, in table order; none where that table is absent.
pub open spec fn declared_projects(v: ValView) -> Seq<(Seq<char>, Seq<char>)> {
    match doc_get(v, seq![IndexView::Key("gobi"@), IndexView::Key("projects"@)]) {
        Some(ValView::Tbl(entries)) => str_projects(entries),
        _ => Seq::empty(),
    }
}

/// Filtering one more entry keeps it exactly when its value is a string.
proof fn lemma_str_projects_push(entries: Seq<(Seq<char>, ValView)>, x: (Seq<char>, ValView))
    ensures
        str_projects(entries.push(x)) == (match x.1 {
            ValView::Str(p) => str_projects(entries).push((x.0, p)),
            _ => str_projects(entries),
        }),
    decreases entries.len(),
{
    if entries.len() == 0 {
        assert(entries.push(x)[0] == x);
        assert(entries.push(x).drop_first() =~= Seq::<(Seq<char>, ValView)>::empty());
        assert(str_projects(entries.push(x).drop_first()) =~= Seq::<(Seq<char>, Seq<char>)>::empty());
        match x.1 {
            ValView::Str(p) => {
                assert(str_projects(entries.push(x)) =~= str_projects(entries).push((x.0, p)));
            },
            _ => {},
        }
    } else {
        lemma_str_projects_push(entries.drop_first(), x);
        assert(entries.push(x)[0] == entries[0]);
        assert(entries.push(x).drop_first() =~= entries.drop_first().push(x));
        match (entries[0].1, x.1) {
            (ValView::Str(q), ValView::Str(p)) => {
                assert(seq![(entries[0].0, q)] + str_projects(entries.drop_first()).push((x.0, p))
                    =~= (seq![(entries[0].0, q)] + str_projects(entries.drop_first())).push(
                    (x.0, p),
                ));
            },
            _ => {},
        }
    }
}

impl GobiRecipe {
    /// The orchestrator recipe.
    pub fn new() -> (r: GobiRecipe) {
        GobiRecipe {  }
    }

    /// One project action per sub-project the document declares, each bound
    /// to its declared path, in table order. A document that declares none
    /// yields none; this recipe itself never fails.
    #[verifier::loop_isolation(false)]
    pub fn create_actions(&self, data: &TomlEntry) -> (r: GobiResult<Vec<GobiAction>>)
        ensures
            ({
                let projects = declared_projects(data.data@);
                match r {
                    Ok(vs) => vs@.len() == projects.len() && forall|i: int|
                        0 <= i < projects.len() ==> (#[trigger] vs@[i])@.name == project_identity(
                            projects[i].0,
                        ) && vs@[i]@.subname == project_identity(projects[i].0) && vs@[i]@.priority
                            == false && vs@[i]@.path == projects[i].1,
                    Err(_) => false,
                }
            }),
    {
        let mut path: Vec<crate::file::EntryIndex> = Vec::new();
        path.push(crate::file::EntryIndex::Key("gobi".to_owned()));
        path.push(crate::file::EntryIndex::Key("projects".to_owned()));
        proof {
            assert(crate::file::path_view(path@) =~= seq![
                IndexView::Key("gobi"@),
                IndexView::Key("projects"@),
            ]);
        }
        let mut out: Vec<GobiAction> = Vec::new();
        let projects_entry = match data.get_nested(&path) {
            Some(e) => e,
            None => {
                return Ok(out);
            },
        };
        let table = match projects_entry.get_table() {
            Some(t) => t,
            None => {
                return Ok(out);
            },
        };
        let ghost entries = projects_entry.data@->Tbl_0;
        let ghost projects = declared_projects(data.data@);
        proof {
            assert(projects == str_projects(entries));
        }
        let mut i: usize = 0;
        proof {
            assert(entries.take(0) =~= Seq::<(Seq<char>, ValView)>::empty());
        }
        while i < table.len()
            invariant
                i <= table@.len(),
                table@.len() == entries.len(),
                forall|k: int|
                    0 <= k < entries.len() ==> (#[trigger] table@[k]).0@ == entries[k].0
                        && table@[k].1.data@ == entries[k].1,
                ({
                    let part = str_projects(entries.take(i as int));
                    out@.len() == part.len() && forall|m: int|
                        0 <= m < part.len() ==> (#[trigger] out@[m])@.name == project_identity(
                            part[m].0,
                        ) && out@[m]@.subname == project_identity(part[m].0) && out@[m]@.priority
                            == false && out@[m]@.path == part[m].1
                }),
            decreases table@.len() - i,
        {
            proof {
                assert(entries.take(i as int + 1) =~= entries.take(i as int).push(
                    entries[i as int],
                ));
                lemma_str_projects_push(entries.take(i as int), entries[i as int]);
            }
            match table[i].1.get_string() {
                Some(p) => {
                    let action = GobiAction::new(table[i].0.as_str(), p.to_owned());
                    out.push(action);
                },
                None => {},
            }
            i = i + 1;
        }
        proof {
            assert(entries.take(entries.len() as int) =~= entries);
        }
        Ok(out)
    }
}

} // verus!
