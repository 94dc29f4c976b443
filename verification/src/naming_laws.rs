//! What paths, names and ages say: each law takes a text apart that it has put
//! together.

use crate::paths;
use crate::row_display;
use crate::text;
use crate::workspace;
use crate::workspace::{WorkspaceStatus, WorkspaceView};
use vstd::prelude::*;

verus! {

/// Whether a text is one component of a path that says something.
pub open spec fn is_part(part: Seq<char>) -> bool {
    part.len() > 0 && part != seq!['.'] && forall|k: int|
        0 <= k < part.len() ==> #[trigger] part[k] != '/'
}

/// The path from the root through some components.
pub open spec fn rooted(parts: Seq<Seq<char>>) -> Seq<char>
    decreases parts.len(),
{
    if parts.len() == 0 {
        Seq::empty()
    } else {
        rooted(parts.drop_last()).push('/') + parts.last()
    }
}

proof fn lemma_scanned(before: Seq<char>, part: Seq<char>)
    requires
        forall|k: int| 0 <= k < part.len() ==> #[trigger] part[k] != '/',
    ensures
        paths::scanned(before.push('/') + part) == (paths::parts_of(before), part),
    decreases part.len(),
{
    let path = before.push('/') + part;
    if part.len() == 0 {
        assert(path =~= before.push('/'));
        assert(path.drop_last() =~= before);
        assert(part =~= Seq::<char>::empty());
    } else {
        let rest = part.drop_last();
        assert(path.drop_last() =~= before.push('/') + rest);
        assert(path.last() == part[part.len() - 1]);
        lemma_scanned(before, rest);
        assert(rest.push(part.last()) =~= part);
    }
}

proof fn lemma_rooted(parts: Seq<Seq<char>>)
    requires
        forall|k: int| 0 <= k < parts.len() ==> is_part(#[trigger] parts[k]),
    ensures
        paths::parts_of(rooted(parts)) == parts,
        parts.len() > 0 ==> rooted(parts).len() > 0 && rooted(parts)[0] == '/',
    decreases parts.len(),
{
    if parts.len() == 0 {
        assert(paths::parts_of(rooted(parts)) =~= parts);
    } else {
        let rest = parts.drop_last();
        assert forall|k: int| 0 <= k < rest.len() implies is_part(#[trigger] rest[k]) by {
            assert(rest[k] == parts[k]);
        }
        lemma_rooted(rest);
        let last = parts.last();
        assert(is_part(parts[parts.len() - 1]));
        lemma_scanned(rooted(rest), last);
        assert(rest.push(last) =~= parts);
        let path = rooted(parts);
        if rest.len() > 0 {
            assert(path[0] == rooted(rest)[0]);
        } else {
            assert(path[0] == '/');
        }
    }
}

/// Two paths from the root are the same exactly when they go through the same
/// components.
pub proof fn law_a_path_is_its_components(a: Seq<Seq<char>>, b: Seq<Seq<char>>)
    requires
        a.len() > 0,
        b.len() > 0,
        forall|k: int| 0 <= k < a.len() ==> is_part(#[trigger] a[k]),
        forall|k: int| 0 <= k < b.len() ==> is_part(#[trigger] b[k]),
    ensures
        paths::is_same(rooted(a), rooted(b)) <==> a == b,
        paths::is_same(rooted(a).push('/'), rooted(b)) <==> a == b,
{
    lemma_rooted(a);
    lemma_rooted(b);
    paths::law_a_trailing_slash_says_nothing(rooted(a));
}

/// A path from the root is no path from here, whatever it goes through.
pub proof fn law_a_rooted_path_is_no_relative_one(path: Seq<char>)
    requires
        path.len() == 0 || path[0] != '/',
    ensures
        !paths::is_same(seq!['/'] + path, path),
{
    assert((seq!['/'] + path)[0] == '/');
}

/// A dot between two slashes says nothing.
pub proof fn law_a_dot_on_the_way_says_nothing(before: Seq<char>, parts: Seq<char>)
    requires
        before.len() > 1,
        forall|k: int| 0 <= k < parts.len() ==> #[trigger] parts[k] != '/',
    ensures
        paths::is_same(before + seq!['/', '.', '/'] + parts, before.push('/') + parts),
{
    let through = before + seq!['/', '.'];
    assert(before + seq!['/', '.', '/'] + parts =~= through.push('/') + parts);
    lemma_scanned(through, parts);
    lemma_scanned(before, parts);
    assert(through =~= before.push('/') + seq!['.']);
    lemma_scanned(before, seq!['.']);
    let (long, short) = (before + seq!['/', '.', '/'] + parts, before.push('/') + parts);
    assert(long[0] == short[0] && long[1] == short[1]);
}

/// The name of a path is its last component, unless that leads back up.
pub proof fn law_a_path_is_named_by_its_last_component(parts: Seq<Seq<char>>)
    requires
        parts.len() > 0,
        forall|k: int| 0 <= k < parts.len() ==> is_part(#[trigger] parts[k]),
    ensures
        parts.last() != seq!['.', '.'] ==> paths::name_of(rooted(parts)) == Some(parts.last()),
        parts.last() == seq!['.', '.'] ==> paths::name_of(rooted(parts)) is None,
{
    lemma_rooted(parts);
}

/// A name's extension is what follows its last dot; a name without a dot behind its
/// beginning has none.
pub proof fn law_an_extension_follows_the_last_dot(
    parts: Seq<Seq<char>>,
    stem: Seq<char>,
    extension: Seq<char>,
)
    requires
        forall|k: int| 0 <= k < parts.len() ==> is_part(#[trigger] parts[k]),
        parts.len() > 0,
        parts.last() == stem.push('.') + extension,
        parts.last() != seq!['.', '.'],
        forall|k: int| 0 <= k < extension.len() ==> #[trigger] extension[k] != '.',
    ensures
        stem.len() > 0 ==> paths::extension_of(rooted(parts)) == Some(extension),
        stem.len() == 0 ==> paths::extension_of(rooted(parts)) is None,
{
    law_a_path_is_named_by_its_last_component(parts);
    lemma_last_dot(stem, extension);
    let name = parts.last();
    assert(name.subrange(stem.len() as int + 1, name.len() as int) =~= extension);
}

proof fn lemma_last_dot(stem: Seq<char>, extension: Seq<char>)
    requires
        forall|k: int| 0 <= k < extension.len() ==> #[trigger] extension[k] != '.',
    ensures
        paths::last_dot(stem.push('.') + extension) == stem.len(),
    decreases extension.len(),
{
    let name = stem.push('.') + extension;
    if extension.len() == 0 {
        assert(name.last() == '.');
    } else {
        assert(name.last() == extension[extension.len() - 1]);
        assert(name.drop_last() =~= stem.push('.') + extension.drop_last());
        lemma_last_dot(stem, extension.drop_last());
    }
}

/// A project is labelled by the last component of its path, however many slashes
/// follow; a path of nothing but slashes labels itself.
pub proof fn law_a_project_is_labelled_by_its_last_component(
    directory: Seq<char>,
    name: Seq<char>,
    slashes: nat,
)
    requires
        name.len() > 0,
        forall|k: int| 0 <= k < name.len() ==> #[trigger] name[k] != '/',
    ensures
        workspace::path_project_id(
            directory.push('/') + name + Seq::new(slashes, |i: int| '/'),
        ) == name,
        workspace::path_project_id(name + Seq::new(slashes, |i: int| '/')) == name,
        workspace::path_project_id(Seq::new(slashes, |i: int| '/')) == Seq::new(
            slashes,
            |i: int| '/',
        ),
{
    let set = |c: char| workspace::is_slash(c);
    let tail = Seq::new(slashes, |i: int| '/');
    let full = directory.push('/') + name;
    assert(full.last() == name[name.len() - 1]);
    lemma_trailing(full, slashes);
    lemma_trailing(name, slashes);
    lemma_trailing(Seq::empty(), slashes);
    assert(Seq::<char>::empty() + tail =~= tail);
    assert((full + tail).take(full.len() as int) =~= full);
    assert((name + tail).take(name.len() as int) =~= name);
    lemma_tail(directory.push('/'), name);
    lemma_tail(Seq::empty(), name);
    assert(Seq::<char>::empty() + name =~= name);
    assert((full + tail).subrange(directory.len() as int + 1, full.len() as int) =~= name);
    assert((name + tail).subrange(0, name.len() as int) =~= name);
}

proof fn lemma_trailing(text: Seq<char>, slashes: nat)
    requires
        text.len() > 0 ==> text.last() != '/',
    ensures
        text::end_without(
            text + Seq::new(slashes, |i: int| '/'),
            |c: char| workspace::is_slash(c),
        ) == text.len(),
    decreases slashes,
{
    let all = text + Seq::new(slashes, |i: int| '/');
    if slashes == 0 {
        assert(all =~= text);
    } else {
        assert(all.last() == '/');
        assert(all.drop_last() =~= text + Seq::new((slashes - 1) as nat, |i: int| '/'));
        lemma_trailing(text, (slashes - 1) as nat);
    }
}

proof fn lemma_tail(head: Seq<char>, name: Seq<char>)
    requires
        head.len() == 0 || head.last() == '/',
        forall|k: int| 0 <= k < name.len() ==> #[trigger] name[k] != '/',
    ensures
        text::start_of_tail(head + name, |c: char| workspace::is_slash(c)) == head.len(),
    decreases name.len(),
{
    let all = head + name;
    if name.len() == 0 {
        assert(all =~= head);
    } else {
        assert(all.last() == name[name.len() - 1]);
        assert(all.drop_last() =~= head + name.drop_last());
        lemma_tail(head, name.drop_last());
    }
}

/// A session id made of a workspace says so: it begins with the application's own
/// word, keeps the name's length, is made of small letters, digits and dashes up to
/// the id, and ends in the beginning of the workspace's id.
pub proof fn law_a_derived_session_id_is_readable(name: Seq<char>, id: Seq<char>)
    ensures
        ({
            let made = workspace::derived_session_name(name, id);
            let shown = if id.len() < 6 {
                id.len()
            } else {
                6nat
            };
            &&& made.len() == 3 + 1 + name.len() + 1 + shown
            &&& made.take(4) == seq!['a', 'd', 'e', '-']
            &&& forall|k: int|
                #![trigger made[k]]
                4 <= k < 4 + name.len() ==> {
                    let c = name[k - 4];
                    made[k] == (if ('0' <= c <= '9') || ('a' <= c <= 'z') {
                        c
                    } else if 'A' <= c <= 'Z' {
                        ((c as u32) + 32) as char
                    } else {
                        '-'
                    })
                }
            &&& made[4 + name.len() as int] == '-'
            &&& made.skip(5 + name.len() as int) == id.take(shown as int)
        }),
{
    reveal_strlit("ade");
    reveal_strlit("-");
    let made = workspace::derived_session_name(name, id);
    let shown = if id.len() < 6 {
        id.len()
    } else {
        6nat
    };
    assert(made.take(4) =~= seq!['a', 'd', 'e', '-']);
    assert(made.skip(5 + name.len() as int) =~= id.take(shown as int));
}

/// Renaming a workspace that has a session does not lose the session: its host
/// knows it by the same id. So does a workspace without one, by its own.
pub proof fn law_a_rename_keeps_the_wire_id(workspace: WorkspaceView, name: Seq<char>)
    ensures
        workspace.terminal_session_id matches Some(session) ==> (WorkspaceView {
            name,
            ..workspace
        }).daemon_workspace_id() == session,
        workspace.terminal_session_id is None ==> workspace.daemon_workspace_id()
            == workspace::derived_session_name(workspace.name, workspace.id),
        workspace.project_identity matches Some(identity) ==> workspace.identity_or_path()
            == identity,
        workspace.project_identity is None ==> workspace.identity_or_path()
            == workspace.repository_path,
{
}

/// A new workspace is what it was asked to be and nothing more: it is on this
/// machine, of no daemon and without a session, and it was made when it was opened.
pub proof fn law_a_new_workspace_has_done_nothing(
    id: Seq<char>,
    name: Seq<char>,
    project_id: Seq<char>,
    path: Seq<char>,
    now: i64,
)
    ensures
        ({
            let made = workspace::new_workspace(id, name, project_id, path, now);
            &&& made.id == id && made.name == name && made.project_id == project_id
                && made.repository_path == path
            &&& made.created_at == now && made.last_opened_at == now
            &&& made.status == WorkspaceStatus::Creating && made.project_scope_rev == 0
            &&& made.terminal_session_id is None && made.daemon_id is None
            &&& made.remote_host is None && made.project_identity is None
            &&& made.branch is None && made.remote_workspace_path is None
        }),
{
}

/// What is trimmed away is white space: the text is what is kept, between two texts
/// that hold nothing else.
pub proof fn law_only_white_space_is_trimmed(given: Seq<char>)
    ensures
        exists|head: Seq<char>, tail: Seq<char>|
            {
                &&& given == #[trigger] (head + text::trim_text(given) + tail)
                &&& forall|k: int|
                    0 <= k < head.len() ==> text::is_white_space(#[trigger] head[k])
                &&& forall|k: int|
                    0 <= k < tail.len() ==> text::is_white_space(#[trigger] tail[k])
            },
{
    let white = |c: char| text::is_white_space(c);
    let end = text::end_without(given, white);
    text::lemma_end_without(given, white);
    let kept = given.take(end);
    text::lemma_leading(kept, white);
    let start = text::leading(kept, white);
    let (head, tail) = (kept.take(start), given.skip(end));
    assert(given =~= head + text::trim_text(given) + tail);
    assert forall|k: int| 0 <= k < head.len() implies text::is_white_space(
        #[trigger] head[k],
    ) by {
        assert(white(kept[k]));
    }
    assert forall|k: int| 0 <= k < tail.len() implies text::is_white_space(
        #[trigger] tail[k],
    ) by {
        assert(white(given[end + k]));
    }
}

/// The number that a text of decimal digits stands for.
pub open spec fn read_back(digits: Seq<char>) -> int
    decreases digits.len(),
{
    if digits.len() == 0 {
        0
    } else {
        10 * read_back(digits.drop_last()) + (digits.last() as u32 - '0' as u32)
    }
}

/// A number in decimal notation reads back as the number, is made of digits, and
/// begins with no zero unless it is one.
pub proof fn law_a_number_reads_back(n: nat)
    ensures
        read_back(text::decimal(n)) == n,
        text::decimal(n).len() > 0,
        forall|k: int|
            0 <= k < text::decimal(n).len() ==> '0' <= #[trigger] text::decimal(n)[k] <= '9',
        text::decimal(n)[0] == '0' ==> n == 0,
    decreases n,
{
    let digits = text::decimal(n);
    if n < 10 {
        assert(digits.drop_last() =~= Seq::<char>::empty());
        assert(digits.last() == text::digit(n));
        assert(read_back(digits.drop_last()) == 0);
        assert(read_back(digits) == 10 * read_back(digits.drop_last()) + n);
    } else {
        law_a_number_reads_back(n / 10);
        let rest = text::decimal(n / 10);
        assert(digits.drop_last() =~= rest);
        assert(digits.last() == text::digit(n % 10));
        assert(digits[0] == rest[0]);
        assert(read_back(digits) == 10 * read_back(rest) + n % 10);
    }
}

/// An age is told in the largest unit that it fills: minutes up to an hour, hours up
/// to a day, days up to a week, weeks up to four, and then months of thirty days.
/// What is younger than a minute, or lies ahead, is a minute old.
pub proof fn law_an_age_is_told_in_its_largest_unit(count: int, more: int)
    requires
        1 <= count,
        0 <= more,
    ensures
        more < 60 && count < 60 ==> row_display::age_text(count * 60 + more) == text::decimal(
            count as nat,
        ) + "m"@,
        more < 3_600 && count < 24 ==> row_display::age_text(count * 3_600 + more)
            == text::decimal(count as nat) + "h"@,
        more < 86_400 && count < 7 ==> row_display::age_text(count * 86_400 + more)
            == text::decimal(count as nat) + "d"@,
        more < 604_800 && count < 4 ==> row_display::age_text(count * 604_800 + more)
            == text::decimal(count as nat) + "w"@,
        more < 2_592_000 ==> row_display::age_text(count * 2_592_000 + more) == text::decimal(
            count as nat,
        ) + "mo"@,
        more < 60 ==> row_display::age_text(more) == text::decimal(1) + "m"@,
        row_display::age_text(-more) == text::decimal(1) + "m"@,
{
}

/// A match is one run: as many characters as the query has, each behind the one
/// before, where the query stands, letter case aside, and it stands nowhere before.
pub proof fn law_a_match_is_one_run(
    query: Seq<row_display::CasedView>,
    candidate: Seq<row_display::CasedView>,
)
    ensures
        match row_display::match_positions(query, candidate) {
            Some(numbers) => {
                &&& numbers.len() == query.len()
                &&& forall|k: int|
                    #![trigger numbers[k]]
                    0 <= k < numbers.len() ==> numbers[k] == numbers[0] + k && numbers[k]
                        < candidate.len() && row_display::is_same_letter(
                        candidate[numbers[k] as int],
                        query[k],
                    )
                &&& query.len() > 0 ==> forall|at: int|
                    0 <= at < numbers[0] ==> !#[trigger] row_display::stands_at(
                        query,
                        candidate,
                        at,
                    )
            },
            None => query.len() > 0 && forall|at: int|
                0 <= at && at + query.len() <= candidate.len()
                    ==> !#[trigger] row_display::stands_at(query, candidate, at),
        },
{
    row_display::law_the_first_match_is_shown(query, candidate, 0);
}

} // verus!
