//! Trees assembled from flat rows: the project list with its folders, and
//! the bibliography with its folders, sorted folders first and then by
//! name.
use vstd::prelude::*;
use crate::html::{lowercase, to_lower};
use crate::storage::{ProjectListEntry, ProjectListFolder, ProjectListProject};

verus! {

// ---------------------------------------------------------------------------
// Project list
// ---------------------------------------------------------------------------

/// A folder row: id, name and parent folder.
#[derive(Clone, Debug, PartialEq, Eq)]
pub struct FolderRow {
    pub id: u128,
    pub name: String,
    pub parent: Option<u128>,
}

/// A project row: id, title, last interaction and folder.
#[derive(Clone, Debug, PartialEq, Eq)]
pub struct ProjectRow {
    pub id: u128,
    pub name: String,
    pub last_interaction: i64,
    pub folder: Option<u128>,
}

/// An entry of the project list, as plain values.
pub enum EntryView {
    Folder { id: u128, name: Seq<char>, children: Seq<EntryView> },
    Project { id: u128, name: Seq<char>, last_interaction: i64 },
}

pub open spec fn entry_view(e: ProjectListEntry) -> EntryView
    decreases e,
{
    match e {
        ProjectListEntry::Folder(f) => EntryView::Folder {
            id: f.id,
            name: f.name@,
            children: entries_view(f.children@),
        },
        ProjectListEntry::Project(p) => EntryView::Project {
            id: p.id,
            name: p.name@,
            last_interaction: p.last_interaction,
        },
    }
}

pub open spec fn entries_view(s: Seq<ProjectListEntry>) -> Seq<EntryView>
    decreases s,
{
    if s.len() == 0 {
        Seq::empty()
    } else {
        entries_view(s.drop_last()).push(entry_view(s.last()))
    }
}

/// The projects of folder `parent` (`None` for the top level), in order.
pub open spec fn project_level(parent: Option<u128>, projects: Seq<ProjectRow>) -> Seq<EntryView>
    decreases projects.len(),
{
    if projects.len() == 0 {
        Seq::empty()
    } else {
        let p = projects.last();
        project_level(parent, projects.drop_last()) + if p.folder == parent {
            seq![EntryView::Project { id: p.id, name: p.name@, last_interaction: p.last_interaction }]
        } else {
            Seq::empty()
        }
    }
}

/// The entries of folder `parent`: its sub-folders among the first `k`
/// rows, each with its own entries, and then its projects. A folder is not
/// looked for inside itself, so a cycle of parent links ends the descent.
pub open spec fn folder_level(
    parent: Option<u128>,
    folders: Seq<FolderRow>,
    k: int,
    projects: Seq<ProjectRow>,
) -> Seq<EntryView>
    decreases folders.len(), 0int, k,
{
    if k <= 0 || k > folders.len() {
        Seq::empty()
    } else {
        let f = folders[k - 1];
        folder_level(parent, folders, k - 1, projects) + if f.parent == parent {
            seq![
                EntryView::Folder {
                    id: f.id,
                    name: f.name@,
                    children: tree_entries(Some(f.id), folders.remove(k - 1), projects),
                },
            ]
        } else {
            Seq::empty()
        }
    }
}

/// The entries of folder `parent` (`None` for the top level): its
/// sub-folders in row order, each with its entries, then its projects in
/// row order.
pub open spec fn tree_entries(
    parent: Option<u128>,
    folders: Seq<FolderRow>,
    projects: Seq<ProjectRow>,
) -> Seq<EntryView>
    decreases folders.len(), 1int, 0int,
{
    folder_level(parent, folders, folders.len() as int, projects) + project_level(
        parent,
        projects,
    )
}

fn without_row(folders: &Vec<FolderRow>, k: usize) -> (r: Vec<FolderRow>)
    requires
        k < folders.len(),
    ensures
        r@ == folders@.remove(k as int),
{
    let mut r: Vec<FolderRow> = Vec::new();
    let mut i: usize = 0;
    while i < folders.len()
        invariant
            k < folders.len(),
            i <= folders.len(),
            r@ == (if i <= k {
                folders@.take(i as int)
            } else {
                folders@.remove(k as int).take(i - 1)
            }),
        decreases folders.len() - i,
    {
        if i != k {
            let f = &folders[i];
            r.push(FolderRow { id: f.id, name: f.name.clone(), parent: f.parent });
            proof {
                if i < k {
                    assert(folders@.take(i + 1) =~= folders@.take(i as int).push(folders@[i as int]));
                } else {
                    assert(folders@.remove(k as int).take(i as int) =~= folders@.remove(k as int).take(i - 1).push(folders@[i as int]));
                }
            }
        } else {
            assert(folders@.take(k as int) =~= folders@.remove(k as int).take(k as int));
        }
        i = i + 1;
    }
    assert(folders@.remove(k as int).take(folders.len() - 1) =~= folders@.remove(k as int));
    r
}

fn project_entries(parent: Option<u128>, projects: &Vec<ProjectRow>) -> (r: Vec<ProjectListEntry>)
    ensures
        entries_view(r@) == project_level(parent, projects@),
{
    let mut r: Vec<ProjectListEntry> = Vec::new();
    let mut i: usize = 0;
    while i < projects.len()
        invariant
            i <= projects.len(),
            entries_view(r@) == project_level(parent, projects@.take(i as int)),
        decreases projects.len() - i,
    {
        assert(projects@.take(i + 1).drop_last() =~= projects@.take(i as int));
        assert(projects@.take(i + 1).last() == projects@[i as int]);
        let p = &projects[i];
        let ghost before = entries_view(r@);
        if p.folder == parent {
            let e = ProjectListEntry::Project(
                ProjectListProject { id: p.id, name: p.name.clone(), last_interaction: p.last_interaction },
            );
            proof { lemma_entries_push(r@, e); }
            r.push(e);
            assert(entries_view(r@) =~= before + seq![
                EntryView::Project { id: p.id, name: p.name@, last_interaction: p.last_interaction },
            ]);
        } else {
            assert(before + Seq::<EntryView>::empty() =~= before);
        }
        i = i + 1;
    }
    assert(projects@.take(i as int) =~= projects@);
    r
}

proof fn lemma_entries_push(s: Seq<ProjectListEntry>, e: ProjectListEntry)
    ensures
        entries_view(s.push(e)) == entries_view(s).push(entry_view(e)),
{
    assert(s.push(e).drop_last() =~= s);
}

proof fn lemma_entries_append(a: Seq<ProjectListEntry>, b: Seq<ProjectListEntry>)
    ensures
        entries_view(a + b) == entries_view(a) + entries_view(b),
    decreases b.len(),
{
    if b.len() == 0 {
        assert(a + b =~= a);
        assert(entries_view(a) + entries_view(b) =~= entries_view(a));
    } else {
        let b2 = b.drop_last();
        lemma_entries_append(a, b2);
        assert((a + b).drop_last() =~= a + b2);
        assert((a + b).last() == b.last());
        assert(entries_view(a) + entries_view(b) =~= (entries_view(a) + entries_view(b2)).push(
            entry_view(b.last()),
        ));
    }
}

fn folder_entries(
    parent: Option<u128>,
    folders: &Vec<FolderRow>,
    projects: &Vec<ProjectRow>,
) -> (r: Vec<ProjectListEntry>)
    ensures
        entries_view(r@) == folder_level(parent, folders@, folders@.len() as int, projects@),
    decreases folders@.len(), 0int,
{
    let mut r: Vec<ProjectListEntry> = Vec::new();
    let mut k: usize = 0;
    while k < folders.len()
        invariant
            k <= folders.len(),
            entries_view(r@) == folder_level(parent, folders@, k as int, projects@),
        decreases folders.len() - k,
    {
        let f = &folders[k];
        let ghost before = entries_view(r@);
        if f.parent == parent {
            let sub = without_row(folders, k);
            let children = build_entries(Some(f.id), &sub, projects);
            let e = ProjectListEntry::Folder(
                ProjectListFolder { id: f.id, name: f.name.clone(), children },
            );
            proof { lemma_entries_push(r@, e); }
            r.push(e);
            assert(entries_view(r@) =~= folder_level(parent, folders@, k + 1, projects@));
        } else {
            assert(before + Seq::<EntryView>::empty() =~= before);
        }
        k = k + 1;
    }
    r
}

/// The entries of folder `parent` (`None` for the top level), assembled
/// from flat folder and project rows: first the sub-folders, in row order,
/// each with its own entries, then the projects, in row order.
///
/// Where the parent links of the rows form no cycle, a folder is never met
/// again inside itself, so this is the tree that a plain descent builds.
pub fn build_entries(
    parent: Option<u128>,
    folders: &Vec<FolderRow>,
    projects: &Vec<ProjectRow>,
) -> (r: Vec<ProjectListEntry>)
    ensures
        entries_view(r@) == tree_entries(parent, folders@, projects@),
    decreases folders@.len(), 1int,
{
    let mut r = folder_entries(parent, folders, projects);
    let mut p = project_entries(parent, projects);
    proof { lemma_entries_append(r@, p@); }
    r.append(&mut p);
    r
}

} // verus!
