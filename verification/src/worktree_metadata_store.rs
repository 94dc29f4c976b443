//! How worktrees are named on screen, and what is kept of one that was archived.

use crate::paths;
use crate::text;
use vstd::prelude::*;
use vstd::string::*;

verus! {

/// Record of a git worktree that was archived, that is, deleted from disk.
#[derive(Debug, PartialEq, Eq)]
pub struct ArchivedGitWorktree {
    pub id: i64,
    /// Where the worktree was, and where it is put back.
    pub worktree_path: String,
    /// The main repository that owned it, and that it is reattached to.
    pub main_repo_path: String,
    /// The branch that was checked out; `None` for a detached head.
    pub branch_name: Option<String>,
    /// The commit that holds what was staged.
    pub staged_commit_hash: String,
    /// The commit on top of it that holds what was not.
    pub unstaged_commit_hash: String,
    /// Where the head was before those two.
    pub original_commit_hash: String,
}

/// A name to use for the test database, in the place of one taken from the
/// thread.
#[derive(Debug, PartialEq, Eq)]
pub struct TestMetadataDbName(pub String);

/// The name of the database a test uses.
pub open spec fn test_db_name(
    given: Option<Seq<char>>,
    thread: Option<Seq<char>>,
) -> Seq<char> {
    match given {
        Some(name) => name,
        None => "THREAD_METADATA_DB_"@ + match thread {
            Some(thread) => thread,
            None => "unknown_test"@,
        },
    }
}

impl TestMetadataDbName {
    /// The name given, or else one taken from the running thread's.
    pub fn global(given: Option<&TestMetadataDbName>, thread: Option<&str>) -> (name: String)
        ensures
            name@ == test_db_name(
                match given {
                    Some(name) => Some(name.0@),
                    None => None,
                },
                thread.deep_view(),
            ),
    {
        match given {
            Some(name) => name.0.clone(),
            None => {
                let thread = match thread {
                    Some(thread) => thread,
                    None => "unknown_test",
                };
                text::joined("THREAD_METADATA_DB_", thread)
            },
        }
    }
}

/// The number of a record that was just stored, from what the insertion
/// returned.
pub fn created_id(returned: Option<i64>) -> (id: Result<i64, String>)
    ensures
        match returned {
            Some(number) => id == Ok::<i64, String>(number),
            None => id matches Err(error) && error@ == "expected RETURNING id"@,
        },
{
    match returned {
        Some(id) => Ok(id),
        None => Err("expected RETURNING id".to_owned()),
    }
}

/// Whether any thread still refers to an archived worktree, from how many rows
/// do. No count is none.
pub fn is_archived_worktree_referenced(count: Option<i64>) -> (referenced: bool)
    ensures
        referenced == (count matches Some(count) && count > 0),
{
    match count {
        Some(count) => count > 0,
        None => false,
    }
}

/// Whether a worktree is the main checkout of its repository.
#[derive(Clone, Copy, Debug, PartialEq, Eq, Structural)]
pub enum WorktreeKind {
    Main,
    Linked,
}

/// One worktree of a stored list: the main checkout it belongs to, and its own
/// folder.
#[derive(Debug, PartialEq, Eq)]
pub struct WorktreePair {
    pub main_path: String,
    pub folder_path: String,
    /// The short name of a linked worktree, where it has one.
    pub short_name: Option<String>,
}

/// What a [`WorktreePair`] holds.
#[verifier::ext_equal]
pub struct PairView {
    pub main_path: Seq<char>,
    pub folder_path: Seq<char>,
    pub short_name: Option<Seq<char>>,
}

impl DeepView for WorktreePair {
    type V = PairView;

    open spec fn deep_view(&self) -> PairView {
        PairView {
            main_path: self.main_path@,
            folder_path: self.folder_path@,
            short_name: text::opt(self.short_name),
        }
    }
}

/// What is shown of a worktree.
#[derive(Debug, PartialEq, Eq)]
pub struct ThreadItemWorktreeInfo {
    pub worktree_name: Option<String>,
    pub full_path: String,
    pub highlight_positions: Vec<usize>,
    pub kind: WorktreeKind,
    pub branch_name: Option<String>,
}

/// What a [`ThreadItemWorktreeInfo`] holds.
#[verifier::ext_equal]
pub struct InfoView {
    pub worktree_name: Option<Seq<char>>,
    pub full_path: Seq<char>,
    pub highlight_positions: Seq<usize>,
    pub kind: WorktreeKind,
    pub branch_name: Option<Seq<char>>,
}

impl DeepView for ThreadItemWorktreeInfo {
    type V = InfoView;

    open spec fn deep_view(&self) -> InfoView {
        InfoView {
            worktree_name: text::opt(self.worktree_name),
            full_path: self.full_path@,
            highlight_positions: self.highlight_positions@,
            kind: self.kind,
            branch_name: text::opt(self.branch_name),
        }
    }
}

/// An absent text is an empty one.
pub open spec fn or_empty(name: Option<Seq<char>>) -> Seq<char> {
    match name {
        Some(name) => name,
        None => Seq::empty(),
    }
}

/// Whether a worktree is linked to another checkout.
pub open spec fn is_linked(pair: PairView) -> bool {
    !paths::is_same(pair.main_path, pair.folder_path)
}

/// The branch of a folder.
pub open spec fn branch_of(
    branches: Seq<(Seq<char>, Seq<char>)>,
    folder: Seq<char>,
) -> Option<Seq<char>>
    decreases branches.len(),
{
    if branches.len() == 0 {
        None
    } else if paths::is_same(branches[0].0, folder) {
        Some(branches[0].1)
    } else {
        branch_of(branches.drop_first(), folder)
    }
}

/// The name of a worktree before any project's is put in front. A main checkout
/// whose path ends in no name goes by the whole path.
pub open spec fn plain_name(pair: PairView) -> Seq<char> {
    if is_linked(pair) {
        or_empty(pair.short_name)
    } else {
        match paths::name_of(pair.folder_path) {
            Some(name) => name,
            None => pair.folder_path,
        }
    }
}

/// The name of a worktree: that of its project in front, where asked for and it
/// is a linked one.
pub open spec fn full_name(pair: PairView, prefixed: bool) -> Seq<char> {
    if prefixed && is_linked(pair) {
        or_empty(paths::name_of(pair.main_path)) + ":"@ + plain_name(pair)
    } else {
        plain_name(pair)
    }
}

/// What is shown of a worktree.
pub open spec fn info_of(
    pair: PairView,
    branches: Seq<(Seq<char>, Seq<char>)>,
    prefixed: bool,
) -> InfoView {
    InfoView {
        worktree_name: Some(full_name(pair, prefixed)),
        full_path: pair.folder_path,
        highlight_positions: Seq::empty(),
        kind: if is_linked(pair) {
            WorktreeKind::Linked
        } else {
            WorktreeKind::Main
        },
        branch_name: branch_of(branches, pair.folder_path),
    }
}

/// Whether the worktrees belong to more than one main checkout.
pub open spec fn several_mains(pairs: Seq<PairView>) -> bool {
    exists|i: int, j: int|
        0 <= i < pairs.len() && 0 <= j < pairs.len() && !paths::is_same(
            (#[trigger] pairs[i]).main_path,
            (#[trigger] pairs[j]).main_path,
        )
}

/// Whether there are several worktrees and they all have one name.
pub open spec fn all_same_name(pairs: Seq<PairView>) -> bool {
    pairs.len() > 1 && forall|k: int|
        0 <= k < pairs.len() ==> plain_name(#[trigger] pairs[k]) == plain_name(pairs[0])
}

/// Whether linked worktrees need their project's name in front to be told apart.
pub open spec fn needs_projects(pairs: Seq<PairView>) -> bool {
    several_mains(pairs) && !all_same_name(pairs)
}

/// What is shown of the worktrees of a list: of each, in the order of the list.
pub open spec fn infos_of(
    pairs: Seq<PairView>,
    branches: Seq<(Seq<char>, Seq<char>)>,
) -> Seq<InfoView> {
    let prefixed = needs_projects(pairs);
    pairs.map_values(|pair: PairView| info_of(pair, branches, prefixed))
}

fn find_branch(branches: &Vec<(String, String)>, folder: &str) -> (branch: Option<String>)
    ensures
        text::opt(branch) == branch_of(branches.deep_view(), folder@),
{
    let ghost all = branches.deep_view();
    let mut i: usize = 0;
    assert(all.skip(0) =~= all);
    while i < branches.len()
        invariant
            i <= branches.len(),
            all == branches.deep_view(),
            branch_of(all, folder@) == branch_of(all.skip(i as int), folder@),
        decreases branches.len() - i,
    {
        proof {
            assert(all.skip(i as int)[0] == branches[i as int].deep_view());
            assert(all.skip(i as int).drop_first() =~= all.skip(i + 1));
        }
        if paths::same_path(branches[i].0.as_str(), folder) {
            return Some(branches[i].1.clone());
        }
        i = i + 1;
    }
    None
}

fn text_or_empty(name: &Option<String>) -> (text: String)
    ensures
        text@ == or_empty(text::opt(*name)),
{
    match name {
        Some(name) => name.clone(),
        None => {
            let empty = String::new();
            assert(empty@ =~= Seq::<char>::empty());
            empty
        },
    }
}

fn linked(pair: &WorktreePair) -> (linked: bool)
    ensures
        linked == is_linked(pair.deep_view()),
{
    !paths::same_path(pair.main_path.as_str(), pair.folder_path.as_str())
}

fn name_of(pair: &WorktreePair, prefixed: bool) -> (name: String)
    ensures
        name@ == full_name(pair.deep_view(), prefixed),
{
    if linked(pair) {
        let short = text_or_empty(&pair.short_name);
        if prefixed {
            let project = text_or_empty(&paths::file_name(pair.main_path.as_str()));
            text::joined3(project.as_str(), ":", short.as_str())
        } else {
            short
        }
    } else {
        match paths::file_name(pair.folder_path.as_str()) {
            Some(name) => name,
            None => pair.folder_path.clone(),
        }
    }
}

/// Whether not every worktree has the main checkout of the first.
fn have_several_mains(pairs: &Vec<WorktreePair>) -> (several: bool)
    ensures
        several == several_mains(pairs.deep_view()),
{
    let ghost all = pairs.deep_view();
    let mut i: usize = 0;
    while i < pairs.len()
        invariant
            i <= pairs.len(),
            all == pairs.deep_view(),
            forall|k: int|
                0 <= k < i ==> paths::is_same((#[trigger] all[k]).main_path, all[0].main_path),
        decreases pairs.len() - i,
    {
        proof {
            assert(all[i as int] == pairs[i as int].deep_view());
            assert(all[0] == pairs[0].deep_view());
        }
        if !paths::same_path(pairs[i].main_path.as_str(), pairs[0].main_path.as_str()) {
            assert(!paths::is_same(all[i as int].main_path, all[0].main_path));
            return true;
        }
        i = i + 1;
    }
    proof {
        if several_mains(all) {
            let (a, b) = choose|a: int, b: int|
                0 <= a < all.len() && 0 <= b < all.len() && !paths::is_same(
                    (#[trigger] all[a]).main_path,
                    (#[trigger] all[b]).main_path,
                );
            assert(paths::is_same(all[a].main_path, all[0].main_path));
            assert(paths::is_same(all[b].main_path, all[0].main_path));
        }
    }
    false
}

/// Whether there are several worktrees and they all have one name.
fn have_same_name(pairs: &Vec<WorktreePair>) -> (same: bool)
    ensures
        same == all_same_name(pairs.deep_view()),
{
    let ghost all = pairs.deep_view();
    if pairs.len() <= 1 {
        return false;
    }
    assert(all[0] == pairs[0].deep_view());
    let first = name_of(&pairs[0], false);
    let mut i: usize = 1;
    while i < pairs.len()
        invariant
            1 <= i <= pairs.len(),
            all == pairs.deep_view(),
            first@ == plain_name(all[0]),
            forall|k: int| 0 <= k < i ==> plain_name(#[trigger] all[k]) == plain_name(all[0]),
        decreases pairs.len() - i,
    {
        assert(all[i as int] == pairs[i as int].deep_view());
        if !text::same_text(name_of(&pairs[i], false).as_str(), first.as_str()) {
            return false;
        }
        i = i + 1;
    }
    true
}

/// Derives what is shown of worktrees from a stored list of paths.
///
/// Each has a short name, its path, and whether it is the main checkout or a
/// linked one. Where there are several main checkouts and the names alone do
/// not say which one a linked worktree belongs to, its project is put in front.
pub fn worktree_info_from_thread_paths(
    pairs: &Vec<WorktreePair>,
    branch_names: &Vec<(String, String)>,
) -> (infos: Vec<ThreadItemWorktreeInfo>)
    ensures
        infos.deep_view() == infos_of(pairs.deep_view(), branch_names.deep_view()),
{
    let prefixed = have_several_mains(pairs) && !have_same_name(pairs);
    let ghost all = pairs.deep_view();
    let ghost branches = branch_names.deep_view();
    let ghost info = |pair: PairView| info_of(pair, branches, prefixed);
    let mut infos: Vec<ThreadItemWorktreeInfo> = Vec::new();
    let mut i: usize = 0;
    assert(infos.deep_view() =~= all.take(0).map_values(info));
    while i < pairs.len()
        invariant
            i <= pairs.len(),
            all == pairs.deep_view(),
            branches == branch_names.deep_view(),
            info == (|pair: PairView| info_of(pair, branches, prefixed)),
            infos.deep_view() == all.take(i as int).map_values(info),
        decreases pairs.len() - i,
    {
        let ghost before = infos.deep_view();
        let pair = &pairs[i];
        let positions: Vec<usize> = Vec::new();
        assert(positions@ =~= Seq::<usize>::empty());
        let item = ThreadItemWorktreeInfo {
            worktree_name: Some(name_of(pair, prefixed)),
            full_path: pair.folder_path.clone(),
            highlight_positions: positions,
            kind: if linked(pair) {
                WorktreeKind::Linked
            } else {
                WorktreeKind::Main
            },
            branch_name: find_branch(branch_names, pair.folder_path.as_str()),
        };
        infos.push(item);
        proof {
            assert(infos.deep_view() =~= before.push(item.deep_view()));
            assert(all.take(i + 1) =~= all.take(i as int).push(pair.deep_view()));
            assert(all.take(i + 1).map_values(info) =~= all.take(i as int).map_values(info).push(
                info(pair.deep_view()),
            ));
        }
        i = i + 1;
    }
    assert(all.take(all.len() as int) =~= all);
    infos
}

/// One main checkout needs no telling apart: no project is put in front.
pub proof fn law_one_project_needs_no_prefix(pairs: Seq<PairView>)
    requires
        forall|i: int, j: int|
            0 <= i < pairs.len() && 0 <= j < pairs.len() ==> paths::is_same(
                (#[trigger] pairs[i]).main_path,
                (#[trigger] pairs[j]).main_path,
            ),
    ensures
        !needs_projects(pairs),
{
}

} // verus!
