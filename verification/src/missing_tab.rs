//! The tab a layout gets when this client cannot render the real one.
//!
//! A tab silently dropped would be captured back as a layout without it, so it
//! stays, holding what it stands in for. Failing to attach is not a kill: the
//! session is left running and the tab is left naming it.

use crate::text;
use vstd::prelude::*;
use vstd::string::*;

verus! {

/// One tab of a layout.
#[derive(Debug, PartialEq, Eq)]
pub enum Tab {
    Editor { path: String },
    Terminal { session_id: String },
}

/// What a [`Tab`] holds.
#[verifier::ext_equal]
pub enum TabView {
    Editor { path: Seq<char> },
    Terminal { session_id: Seq<char> },
}

impl View for Tab {
    type V = TabView;

    open spec fn view(&self) -> TabView {
        match *self {
            Tab::Editor { path } => TabView::Editor { path: path@ },
            Tab::Terminal { session_id } => TabView::Terminal { session_id: session_id@ },
        }
    }
}

/// A tab standing in for one this client could not build.
#[derive(Debug, PartialEq, Eq)]
pub struct MissingTab {
    tab: Tab,
}

impl View for MissingTab {
    type V = TabView;

    closed spec fn view(&self) -> TabView {
        self.tab@
    }
}

/// Whether a character separates the components of a path.
pub open spec fn is_separator(c: char) -> bool {
    c == '/' || c == '\\'
}

/// The last component of a path that is not empty; the whole path where all of
/// them are.
pub open spec fn short_path(path: Seq<char>) -> Seq<char> {
    let component = last_named(path);
    if component.len() == 0 {
        path
    } else {
        component
    }
}

/// The last component of a path that is not empty.
pub open spec fn last_named(path: Seq<char>) -> Seq<char>
    decreases path.len(),
{
    if path.len() == 0 {
        path
    } else if is_separator(path.last()) {
        last_named(path.drop_last())
    } else {
        behind_separator(path)
    }
}

/// What follows the last separator.
pub open spec fn behind_separator(path: Seq<char>) -> Seq<char>
    decreases path.len(),
{
    if path.len() == 0 || is_separator(path.last()) {
        Seq::empty()
    } else {
        behind_separator(path.drop_last()).push(path.last())
    }
}

/// What a tab has room for.
pub open spec fn short_name_of(tab: TabView) -> Seq<char> {
    match tab {
        TabView::Editor { path } => short_path(path),
        TabView::Terminal { session_id } => session_id,
    }
}

/// The identifier being stood in for, whole.
pub open spec fn subject_of(tab: TabView) -> Seq<char> {
    match tab {
        TabView::Editor { path } => path,
        TabView::Terminal { session_id } => session_id,
    }
}

/// Why a tab is a placeholder.
pub open spec fn reason_of(tab: TabView) -> Seq<char> {
    match tab {
        TabView::Editor { .. } => "This file could not be opened"@,
        TabView::Terminal { .. } =>
            "This session could not be attached to. It is still running."@,
    }
}

fn shorten(path: &str) -> (short: String)
    ensures
        short@ == short_path(path@),
{
    let letters = text::characters(path);
    let mut end: usize = letters.len();
    assert(path@.take(path@.len() as int) =~= path@);
    while end > 0 && (letters[end - 1] == '/' || letters[end - 1] == '\\')
        invariant
            end <= letters.len(),
            letters@ == path@,
            last_named(path@) == last_named(path@.take(end as int)),
        decreases end,
    {
        proof {
            assert(path@.take(end as int).last() == path@[end - 1]);
            assert(path@.take(end as int).drop_last() =~= path@.take(end - 1));
        }
        end = end - 1;
    }
    if end == 0 {
        assert(last_named(path@.take(0)).len() == 0);
        return path.to_owned();
    }
    let ghost head = path@.take(end as int);
    proof {
        assert(head.last() == path@[end - 1]);
        assert(last_named(path@) == behind_separator(head));
        assert(behind_separator(head).len() > 0);
        assert(behind_separator(head) + Seq::<char>::empty() =~= behind_separator(head));
        assert(path@.subrange(end as int, end as int) =~= Seq::<char>::empty());
    }
    let mut from: usize = end;
    while from > 0 && !(letters[from - 1] == '/' || letters[from - 1] == '\\')
        invariant
            from <= end <= letters.len(),
            letters@ == path@,
            head == path@.take(end as int),
            behind_separator(head) == behind_separator(path@.take(from as int)) + path@.subrange(
                from as int,
                end as int,
            ),
        decreases from,
    {
        proof {
            let shorter = path@.take(from as int);
            assert(shorter.last() == path@[from - 1]);
            assert(shorter.drop_last() =~= path@.take(from - 1));
            assert(behind_separator(shorter) + path@.subrange(from as int, end as int)
                =~= behind_separator(shorter.drop_last()) + path@.subrange(from - 1, end as int));
        }
        from = from - 1;
    }
    proof {
        let shorter = path@.take(from as int);
        if from > 0 {
            assert(shorter.last() == path@[from - 1]);
        }
        assert(behind_separator(shorter) =~= Seq::<char>::empty());
        assert(behind_separator(head) =~= path@.subrange(from as int, end as int));
    }
    text::slice(path, from, end)
}

impl MissingTab {
    /// The placeholder for a file that could not be opened.
    pub fn file(path: &str) -> (tab: Self)
        ensures
            tab@ == (TabView::Editor { path: path@ }),
    {
        MissingTab { tab: Tab::Editor { path: path.to_owned() } }
    }

    /// The placeholder for a session that could not be attached to.
    pub fn session(session_id: &str) -> (tab: Self)
        ensures
            tab@ == (TabView::Terminal { session_id: session_id@ }),
    {
        MissingTab { tab: Tab::Terminal { session_id: session_id.to_owned() } }
    }

    /// The tab this one stands in for, which is what it captures back as.
    pub fn tab(&self) -> (tab: &Tab)
        ensures
            tab@ == self@,
    {
        &self.tab
    }

    /// The identifier being stood in for, whole: a path or a session id.
    pub fn subject(&self) -> (subject: &str)
        ensures
            subject@ == subject_of(self@),
    {
        match &self.tab {
            Tab::Editor { path } => path.as_str(),
            Tab::Terminal { session_id } => session_id.as_str(),
        }
    }

    /// What a tab has room for: the last component of a path, or the session id
    /// as it is.
    pub fn short_name(&self) -> (name: String)
        ensures
            name@ == short_name_of(self@),
    {
        match &self.tab {
            Tab::Editor { path } => shorten(path.as_str()),
            Tab::Terminal { session_id } => session_id.clone(),
        }
    }

    /// Why this tab is a placeholder.
    pub fn reason(&self) -> (reason: &'static str)
        ensures
            reason@ == reason_of(self@),
    {
        match &self.tab {
            Tab::Editor { .. } => "This file could not be opened",
            Tab::Terminal {
                ..
            } => "This session could not be attached to. It is still running.",
        }
    }

    /// What hovering over the tab says.
    pub fn tab_tooltip_text(&self) -> (text: String)
        ensures
            text@ == reason_of(self@) + ": "@ + subject_of(self@),
    {
        text::joined3(self.reason(), ": ", self.subject())
    }
}

proof fn lemma_behind_separator(path: Seq<char>)
    ensures
        forall|k: int|
            0 <= k < behind_separator(path).len() ==> !is_separator(
                #[trigger] behind_separator(path)[k],
            ),
    decreases path.len(),
{
    if path.len() > 0 && !is_separator(path.last()) {
        let shorter = behind_separator(path.drop_last());
        lemma_behind_separator(path.drop_last());
        assert forall|k: int| 0 <= k < behind_separator(path).len() implies !is_separator(
            #[trigger] behind_separator(path)[k],
        ) by {
            if k < shorter.len() {
                assert(behind_separator(path)[k] == shorter[k]);
            }
        }
    }
}

proof fn lemma_last_named(path: Seq<char>)
    ensures
        forall|k: int|
            0 <= k < last_named(path).len() ==> !is_separator(#[trigger] last_named(path)[k]),
    decreases path.len(),
{
    if path.len() > 0 {
        if is_separator(path.last()) {
            lemma_last_named(path.drop_last());
            assert(last_named(path) == last_named(path.drop_last()));
        } else {
            lemma_behind_separator(path);
            assert(last_named(path) == behind_separator(path));
        }
    }
}

/// A file's short name holds no separator, unless the whole path is shown for
/// want of any name in it.
pub proof fn law_a_short_name_is_one_component(path: Seq<char>)
    ensures
        short_path(path) == path || forall|k: int|
            0 <= k < short_path(path).len() ==> !is_separator(#[trigger] short_path(path)[k]),
{
    lemma_last_named(path);
}

} // verus!
