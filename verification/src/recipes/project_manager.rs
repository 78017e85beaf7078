//! Managing the [gobi.projects] table of a project document: registering,
//! deregistering and pruning project entries, and looking their paths up.
//! Reading and saving the file, file-system checks and confirmation prompts
//! are the caller's work; every decision and every document edit is here.
use vstd::prelude::*;

use crate::GobiError;
use crate::GobiResult;
use crate::file::EntryIndex;
use crate::file::EntryValue;
use crate::file::IndexView;
use crate::file::TomlFile;
use crate::file::ValView;
use crate::file::ValueOp;
use crate::file::doc_get;
use crate::file::doc_set;
use crate::file::lemma_doc_set_nav_missing;
use crate::file::lemma_doc_set_one;
use crate::file::lemma_doc_set_two;
use crate::file::path_view;
use crate::file::tbl_get;
use crate::file::tbl_put;
use crate::file::tbl_remove;
use crate::merge_spec;

verus! {

/// The message reported when a project name is already taken.
pub open spec fn already_registered_msg(name: Seq<char>) -> Seq<char> {
    "Project "@ + name + " is already registered"@
}

/// The message reported when a project name is not registered.
pub open spec fn not_registered_msg(name: Seq<char>) -> Seq<char> {
    "Project "@ + name + " is not registered"@
}

/// The message reported when a looked-up project is absent or has no
/// string path.
pub open spec fn project_not_found_msg(name: Seq<char>) -> Seq<char> {
    "Project "@ + name + " not found"@
}

/// What registering a project does to a document tree: the [gobi] and
/// [gobi.projects] tables are created where absent, a non-table in their
/// place or a name already present is refused, and the path is stored
/// under the name.
pub open spec fn register_outcome(root: ValView, name: Seq<char>, path: Seq<char>) -> Result<
    ValView,
    Seq<char>,
> {
    match root {
        ValView::Tbl(top) => match tbl_get(top, "gobi"@) {
            Some(g) => match g {
                ValView::Tbl(ge) => match tbl_get(ge, "projects"@) {
                    Some(p) => match p {
                        ValView::Tbl(pe) => if tbl_get(pe, name) is Some {
                            Err(already_registered_msg(name))
                        } else {
                            Ok(
                                ValView::Tbl(
                                    tbl_put(
                                        top,
                                        "gobi"@,
                                        ValView::Tbl(
                                            tbl_put(
                                                ge,
                                                "projects"@,
                                                ValView::Tbl(tbl_put(pe, name, ValView::Str(path))),
                                            ),
                                        ),
                                    ),
                                ),
                            )
                        },
                        _ => Err("Expected [gobi.projects] to be a table"@),
                    },
                    None => Ok(
                        ValView::Tbl(
                            tbl_put(
                                top,
                                "gobi"@,
                                ValView::Tbl(
                                    tbl_put(
                                        ge,
                                        "projects"@,
                                        ValView::Tbl(seq![(name, ValView::Str(path))]),
                                    ),
                                ),
                            ),
                        ),
                    ),
                },
                _ => Err("Expected [gobi] to be a table"@),
            },
            None => Ok(
                ValView::Tbl(
                    tbl_put(
                        top,
                        "gobi"@,
                        ValView::Tbl(
                            seq![("projects"@, ValView::Tbl(seq![(name, ValView::Str(path))]))],
                        ),
                    ),
                ),
            ),
        },
        _ => Err("Tried setting a string key on a non-table type"@),
    }
}

/// Register a project: bind `name` to `path` under [gobi.projects],
/// creating the sections where absent. A non-table in their place and an
/// already-registered name are refused, and the tree is then unchanged.
pub fn register_project(file: &mut TomlFile, name: &str, path: &str) -> (r: GobiResult<()>)
    ensures
        final(file).path == old(file).path,
        match (r, register_outcome(old(file).data@, name@, path@)) {
            (Ok(_), Ok(nv)) => final(file).data@ == nv,
            (Err(e), Err(m)) => e.code == 1 && e.msg@ == m && final(file).data@ == old(file).data@,
            _ => false,
        },
{
    let ghost root = file.data@;
    let data = file.get_data();
    let gobi_idx = EntryIndex::Key("gobi".to_owned());
    match data.get(&gobi_idx) {
        Some(g) => {
            if !g.is_table() {
                return Err(GobiError { code: 1, msg: "Expected [gobi] to be a table".to_owned() });
            }
            let projects_idx = EntryIndex::Key("projects".to_owned());
            match g.get(&projects_idx) {
                Some(p) => {
                    if !p.is_table() {
                        return Err(
                            GobiError {
                                code: 1,
                                msg: "Expected [gobi.projects] to be a table".to_owned(),
                            },
                        );
                    }
                    match p.contains(name) {
                        Some(true) => {
                            let mut msg = "Project ".to_owned();
                            msg.append(name);
                            msg.append(" is already registered");
                            proof {
                                reveal_strlit("Project ");
                                reveal_strlit(" is already registered");
                            }
                            return Err(GobiError { code: 1, msg });
                        },
                        _ => {},
                    }
                    proof {
                        assert(path_view(p.path@) =~= seq![
                            IndexView::Key("gobi"@),
                            IndexView::Key("projects"@),
                        ]);
                        lemma_doc_set_two(
                            root,
                            IndexView::Key("gobi"@),
                            IndexView::Key("projects"@),
                            IndexView::Key(name@),
                            ValueOp::Put(ValView::Str(path@)),
                        );
                    }
                    let r = file.set(
                        &p,
                        EntryIndex::Key(name.to_owned()),
                        EntryValue::String(path.to_owned()),
                    );
                    match r {
                        Ok(_) => Ok(()),
                        Err(e) => {
                            proof {
                                assert(false);
                            }
                            Err(e)
                        },
                    }
                },
                None => {
                    let mut inner: Vec<(String, EntryValue)> = Vec::new();
                    inner.push((name.to_owned(), EntryValue::String(path.to_owned())));
                    proof {
                        assert(path_view(g.path@) =~= seq![IndexView::Key("gobi"@)]);
                        lemma_conv_single_string_table(inner, name@, path@);
                        lemma_doc_set_one(
                            root,
                            IndexView::Key("gobi"@),
                            IndexView::Key("projects"@),
                            ValueOp::Put(ValView::Tbl(seq![(name@, ValView::Str(path@))])),
                        );
                    }
                    let r = file.set(
                        &g,
                        EntryIndex::Key("projects".to_owned()),
                        EntryValue::Table(inner),
                    );
                    match r {
                        Ok(_) => Ok(()),
                        Err(e) => {
                            proof {
                                assert(false);
                            }
                            Err(e)
                        },
                    }
                },
            }
        },
        None => {
            let mut projects: Vec<(String, EntryValue)> = Vec::new();
            projects.push((name.to_owned(), EntryValue::String(path.to_owned())));
            let mut gobi_tbl: Vec<(String, EntryValue)> = Vec::new();
            gobi_tbl.push(("projects".to_owned(), EntryValue::Table(projects)));
            proof {
                assert(path_view(data.path@) =~= Seq::<IndexView>::empty());
                lemma_conv_gobi_table(gobi_tbl, name@, path@);
            }
            file.set(&data, gobi_idx, EntryValue::Table(gobi_tbl))
        },
    }
}

/// Converting a one-entry table value holding one string.
proof fn lemma_conv_single_string_table(
    inner: Vec<(String, EntryValue)>,
    name: Seq<char>,
    path: Seq<char>,
)
    requires
        inner@.len() == 1,
        inner@[0].0@ == name,
        inner@[0].1 matches EntryValue::String(s) && s@ == path,
    ensures
        crate::file::conv_spec(EntryValue::Table(inner)) == Ok::<ValView, (int, Seq<char>)>(
            ValView::Tbl(seq![(name, ValView::Str(path))]),
        ),
{
    assert(inner@.drop_first() =~= Seq::<(String, EntryValue)>::empty());
    assert(crate::file::conv_spec(inner@[0].1) == Ok::<ValView, (int, Seq<char>)>(
        ValView::Str(path),
    ));
    assert(tbl_put(Seq::<(Seq<char>, ValView)>::empty(), name, ValView::Str(path)) =~= seq![
        (name, ValView::Str(path)),
    ]);
    assert(crate::file::conv_tbl(
        inner@.drop_first(),
        seq![(name, ValView::Str(path))],
        (0int, Seq::<char>::empty()),
    ) == (seq![(name, ValView::Str(path))], (0int, Seq::<char>::empty())));
    assert(crate::file::conv_tbl(inner@, Seq::empty(), (0int, Seq::<char>::empty())) == (
        seq![(name, ValView::Str(path))],
        (0int, Seq::<char>::empty()),
    ));
}

/// Converting a one-entry table value holding one single-string table.
proof fn lemma_conv_gobi_table(
    outer: Vec<(String, EntryValue)>,
    name: Seq<char>,
    path: Seq<char>,
)
    requires
        outer@.len() == 1,
        outer@[0].0@ == "projects"@,
        outer@[0].1 matches EntryValue::Table(inner) && inner@.len() == 1 && inner@[0].0@ == name
            && (inner@[0].1 matches EntryValue::String(s) && s@ == path),
    ensures
        crate::file::conv_spec(EntryValue::Table(outer)) == Ok::<ValView, (int, Seq<char>)>(
            ValView::Tbl(seq![("projects"@, ValView::Tbl(seq![(name, ValView::Str(path))]))]),
        ),
{
    let inner = (match outer@[0].1 {
        EntryValue::Table(v) => v,
        _ => arbitrary(),
    });
    lemma_conv_single_string_table(inner, name, path);
    assert(crate::file::conv_spec(outer@[0].1) == Ok::<ValView, (int, Seq<char>)>(
        ValView::Tbl(seq![(name, ValView::Str(path))]),
    ));
    assert(outer@.drop_first() =~= Seq::<(String, EntryValue)>::empty());
    let entry = ("projects"@, ValView::Tbl(seq![(name, ValView::Str(path))]));
    assert(tbl_put(Seq::<(Seq<char>, ValView)>::empty(), "projects"@, entry.1) =~= seq![entry]);
    assert(crate::file::conv_tbl(outer@.drop_first(), seq![entry], (0int, Seq::<char>::empty()))
        == (seq![entry], (0int, Seq::<char>::empty())));
    assert(crate::file::conv_tbl(outer@, Seq::empty(), (0int, Seq::<char>::empty())) == (
        seq![entry],
        (0int, Seq::<char>::empty()),
    ));
}


/// What deregistering a project does to a document tree: the name's entry
/// leaves [gobi.projects]; a name that is not registered, and a non-table
/// in the sections' place, are refused.
pub open spec fn deregister_outcome(root: ValView, name: Seq<char>) -> Result<ValView, Seq<char>> {
    match root {
        ValView::Tbl(top) => match tbl_get(top, "gobi"@) {
            Some(g) => match g {
                ValView::Tbl(ge) => match tbl_get(ge, "projects"@) {
                    Some(p) => match p {
                        ValView::Tbl(pe) => if tbl_get(pe, name) is None {
                            Err(not_registered_msg(name))
                        } else {
                            Ok(
                                ValView::Tbl(
                                    tbl_put(
                                        top,
                                        "gobi"@,
                                        ValView::Tbl(
                                            tbl_put(
                                                ge,
                                                "projects"@,
                                                ValView::Tbl(tbl_remove(pe, name)),
                                            ),
                                        ),
                                    ),
                                ),
                            )
                        },
                        _ => Err("Expected [gobi.projects] to be a table"@),
                    },
                    None => Err(not_registered_msg(name)),
                },
                _ => Err("Expected [gobi] to be a table"@),
            },
            None => Err(not_registered_msg(name)),
        },
        _ => Err(not_registered_msg(name)),
    }
}

/// Deregister a project: remove `name` from [gobi.projects]. A name that is
/// not registered is refused, and the tree is then unchanged.
pub fn deregister_project(file: &mut TomlFile, name: &str) -> (r: GobiResult<()>)
    ensures
        final(file).path == old(file).path,
        match (r, deregister_outcome(old(file).data@, name@)) {
            (Ok(_), Ok(nv)) => final(file).data@ == nv,
            (Err(e), Err(m)) => e.code == 1 && e.msg@ == m && final(file).data@ == old(file).data@,
            _ => false,
        },
{
    let ghost root = file.data@;
    let not_registered = |n: &str| -> (m: GobiError)
        ensures
            m.code == 1 && m.msg@ == not_registered_msg(n@),
        {
            let mut msg = "Project ".to_owned();
            msg.append(n);
            msg.append(" is not registered");
            proof {
                reveal_strlit("Project ");
                reveal_strlit(" is not registered");
            }
            GobiError { code: 1, msg }
        };
    let data = file.get_data();
    let gobi_idx = EntryIndex::Key("gobi".to_owned());
    match data.get(&gobi_idx) {
        Some(g) => {
            if !g.is_table() {
                return Err(GobiError { code: 1, msg: "Expected [gobi] to be a table".to_owned() });
            }
            let projects_idx = EntryIndex::Key("projects".to_owned());
            match g.get(&projects_idx) {
                Some(p) => {
                    if !p.is_table() {
                        return Err(
                            GobiError {
                                code: 1,
                                msg: "Expected [gobi.projects] to be a table".to_owned(),
                            },
                        );
                    }
                    match p.contains(name) {
                        Some(false) => {
                            return Err(not_registered(name));
                        },
                        _ => {},
                    }
                    proof {
                        assert(path_view(p.path@) =~= seq![
                            IndexView::Key("gobi"@),
                            IndexView::Key("projects"@),
                        ]);
                        lemma_doc_set_two(
                            root,
                            IndexView::Key("gobi"@),
                            IndexView::Key("projects"@),
                            IndexView::Key(name@),
                            ValueOp::Delete,
                        );
                    }
                    let r = file.drop(&p, EntryIndex::Key(name.to_owned()));
                    match r {
                        Ok(_) => Ok(()),
                        Err(e) => {
                            proof {
                                assert(false);
                            }
                            Err(e)
                        },
                    }
                },
                None => Err(not_registered(name)),
            }
        },
        None => Err(not_registered(name)),
    }
}

/// Left fold of project lookups: each found string path is collected, each
/// missing or non-string entry merges a not-found report.
pub open spec fn where_fold(
    pe: Seq<(Seq<char>, ValView)>,
    names: Seq<String>,
    acc: Seq<Seq<char>>,
    err: (int, Seq<char>),
) -> (Seq<Seq<char>>, (int, Seq<char>))
    decreases names.len(),
{
    if names.len() == 0 {
        (acc, err)
    } else {
        match tbl_get(pe, names[0]@) {
            Some(ValView::Str(p)) => where_fold(pe, names.drop_first(), acc.push(p), err),
            _ => where_fold(
                pe,
                names.drop_first(),
                acc,
                merge_spec(err, (1int, project_not_found_msg(names[0]@))),
            ),
        }
    }
}

/// What looking up project paths yields: the [gobi.projects] table must
/// exist as a table; each requested name resolves to its string path, and
/// every miss is merged into one aggregate report that discards the hits.
pub open spec fn where_outcome(root: ValView, names: Seq<String>) -> Result<
    Seq<Seq<char>>,
    (int, Seq<char>),
> {
    match doc_get(root, seq![IndexView::Key("gobi"@), IndexView::Key("projects"@)]) {
        Some(ValView::Tbl(pe)) => {
            let folded = where_fold(pe, names, Seq::empty(), (0int, Seq::<char>::empty()));
            if folded.1.0 != 0 {
                Err(folded.1)
            } else {
                Ok(folded.0)
            }
        },
        _ => Err((1int, "Expected 'projects' to be a table"@)),
    }
}

/// The paths of the requested projects, in request order. A missing
/// [gobi.projects] table is refused; otherwise every name is looked up and
/// the misses, if any, are reported together.
#[verifier::loop_isolation(false)]
pub fn where_paths(file: &TomlFile, names: &Vec<String>) -> (r: GobiResult<Vec<String>>)
    ensures
        match (r, where_outcome(file.data@, names@)) {
            (Ok(paths), Ok(ps)) => crate::recipes::key_views(paths@) == ps,
            (Err(e), Err(f)) => e.code as int == f.0 && e.msg@ == f.1,
            _ => false,
        },
{
    let data = file.get_data();
    let mut lookup: Vec<EntryIndex> = Vec::new();
    lookup.push(EntryIndex::Key("gobi".to_owned()));
    lookup.push(EntryIndex::Key("projects".to_owned()));
    proof {
        assert(path_view(lookup@) =~= seq![
            IndexView::Key("gobi"@),
            IndexView::Key("projects"@),
        ]);
    }
    let projects = match data.get_nested(&lookup) {
        Some(p) => p,
        None => {
            return Err(
                GobiError { code: 1, msg: "Expected 'projects' to be a table".to_owned() },
            );
        },
    };
    if !projects.is_table() {
        return Err(GobiError { code: 1, msg: "Expected 'projects' to be a table".to_owned() });
    }
    let ghost pe = projects.data@->Tbl_0;
    let mut paths: Vec<String> = Vec::new();
    let mut err = GobiError { code: 0, msg: String::new() };
    let mut i: usize = 0;
    proof {
        assert(names@.skip(0) =~= names@);
        assert(crate::recipes::key_views(paths@) =~= Seq::<Seq<char>>::empty());
    }
    while i < names.len()
        invariant
            i <= names.len(),
            where_fold(
                pe,
                names@.skip(i as int),
                crate::recipes::key_views(paths@),
                (err.code as int, err.msg@),
            ) == where_fold(pe, names@, Seq::empty(), (0int, Seq::<char>::empty())),
        decreases names.len() - i,
    {
        proof {
            assert(names@.skip(i as int)[0] == names@[i as int]);
            assert(names@.skip(i as int).drop_first() =~= names@.skip(i as int + 1));
        }
        let idx = EntryIndex::Key(names[i].clone());
        let found: Option<String> = match projects.get(&idx) {
            Some(e) => match e.get_string() {
                Some(p) => Some(p.to_owned()),
                None => None,
            },
            None => None,
        };
        match found {
            Some(p) => {
                let ghost before = crate::recipes::key_views(paths@);
                paths.push(p);
                proof {
                    assert(crate::recipes::key_views(paths@) =~= before.push(
                        tbl_get(pe, names@[i as int]@)->Some_0->Str_0,
                    ));
                }
            },
            None => {
                let mut msg = "Project ".to_owned();
                msg.append(names[i].as_str());
                msg.append(" not found");
                proof {
                    reveal_strlit("Project ");
                    reveal_strlit(" not found");
                }
                err = err.merge(GobiError { code: 1, msg });
            },
        }
        i = i + 1;
    }
    proof {
        assert(names@.skip(names@.len() as int) =~= Seq::<String>::empty());
    }
    if err.code != 0 {
        Err(err)
    } else {
        Ok(paths)
    }
}

/// What pruning does to a document tree: each named entry is deleted from
/// [gobi.projects] in turn; a deletion that fails leaves the tree as it was
/// and the pruning moves on.
pub open spec fn prune_fold(root: ValView, names: Seq<String>) -> ValView
    decreases names.len(),
{
    if names.len() == 0 {
        root
    } else {
        let step = match doc_set(
            root,
            seq![IndexView::Key("gobi"@), IndexView::Key("projects"@)],
            IndexView::Key(names[0]@),
            ValueOp::Delete,
        ) {
            Ok(nv) => nv,
            Err(_) => root,
        };
        prune_fold(step, names.drop_first())
    }
}

/// Prune projects: delete each named entry from [gobi.projects], ignoring
/// entries that cannot be deleted. Never fails.
#[verifier::loop_isolation(false)]
pub fn prune_projects(file: &mut TomlFile, names: &Vec<String>) -> (r: GobiResult<()>)
    ensures
        final(file).path == old(file).path,
        final(file).data@ == prune_fold(old(file).data@, names@),
        r is Ok,
{
    let mut lookup: Vec<EntryIndex> = Vec::new();
    lookup.push(EntryIndex::Key("gobi".to_owned()));
    lookup.push(EntryIndex::Key("projects".to_owned()));
    proof {
        assert(path_view(lookup@) =~= seq![
            IndexView::Key("gobi"@),
            IndexView::Key("projects"@),
        ]);
    }
    let mut i: usize = 0;
    proof {
        assert(names@.skip(0) =~= names@);
    }
    while i < names.len()
        invariant
            i <= names.len(),
            file.path == old(file).path,
            prune_fold(old(file).data@, names@) == prune_fold(file.data@, names@.skip(i as int)),
        decreases names.len() - i,
    {
        proof {
            assert(names@.skip(i as int)[0] == names@[i as int]);
            assert(names@.skip(i as int).drop_first() =~= names@.skip(i as int + 1));
        }
        let data = file.get_data();
        match data.get_nested(&lookup) {
            Some(p) => {
                let _ = file.drop(&p, EntryIndex::Key(names[i].clone()));
            },
            None => {
                proof {
                    lemma_doc_set_nav_missing(
                        file.data@,
                        seq![IndexView::Key("gobi"@), IndexView::Key("projects"@)],
                        IndexView::Key(names@[i as int]@),
                        ValueOp::Delete,
                    );
                }
            },
        }
        i = i + 1;
    }
    proof {
        assert(names@.skip(names@.len() as int) =~= Seq::<String>::empty());
    }
    Ok(())
}

} // verus!
