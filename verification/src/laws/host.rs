//! What holds of where calls run, of the service and its command line, of questions to the
//! user, of the repository's answers and of the dashboard.

use vstd::prelude::*;

use crate::ask_user::{
    distinct, forms_upto, one_form, options_of, options_upto, sent, sent_alone, sent_item,
    AskErrorView, QuestionView, Sent, SentId,
};
use crate::backend::{
    after, call_limit, execute_body, routed, timeout_of, AfterView, BackendRequest, ExecutionView,
    HttpFailure, RemoteOutcome, ToolExecutionBackend, WorkspaceBackend,
};
use crate::dashboard::{first, status_text, TodoStatus};
use crate::format::dec;
use crate::git::{
    branch_of, branches, change_word, changed, patch_lines, DiffLine, FileStatus, Head,
};
use crate::image_query::query::without_slashes;
use crate::journal::tool::number;
use crate::json::{member, str_at, u64_at, Json};
use crate::json_view::{json_view, JsonView};
use crate::manager::ToolPlacement;
use crate::serve::{port_of, serve_call, serve_options, ServeView};
use crate::text::{is_blank, trim};

verus! {

/// A tool of the host runs in this process whatever backend is installed; a tool of the
/// workspace runs where its backend says, at the address and with the token it was given.
pub proof fn calls_run_where_they_belong(
    slot: WorkspaceBackend,
    request: BackendRequest,
)
    ensures
        routed(ToolPlacement::HostOnly, slot, request) == ExecutionView::Local,
        slot is Local ==> routed(ToolPlacement::Workspace, slot, request) == ExecutionView::Local,
        slot matches WorkspaceBackend::Http(b) ==> (routed(
            ToolPlacement::Workspace,
            slot,
            request,
        ) matches ExecutionView::Remote { url, authorization, connect_secs, call_secs, body } && {
            &&& url == without_slashes(b.endpoint@) + "/execute"@
            &&& authorization == "Bearer "@ + b.token@
            &&& connect_secs == 5
            &&& call_secs == call_limit(request.args, request.timeout_secs)
            &&& body == execute_body(request)
        }),
{
}

/// An address loses the slashes at its end, all of them, and nothing else.
pub proof fn slashes_at_the_end_are_dropped(s: Seq<char>)
    ensures
        without_slashes(s).is_prefix_of(s),
        without_slashes(s).len() > 0 ==> without_slashes(s).last() != '/',
        forall|i: int| without_slashes(s).len() <= i < s.len() ==> #[trigger] s[i] == '/',
    decreases s.len(),
{
    if s.len() > 0 && s.last() == '/' {
        let t = s.drop_last();
        slashes_at_the_end_are_dropped(t);
        let k = without_slashes(t).len() as int;
        assert(s.take(k) =~= t.take(k));
        assert forall|i: int| k <= i < s.len() implies #[trigger] s[i] == '/' by {
            if i < t.len() {
                assert(t[i] == s[i]);
            }
        }
    } else {
        assert(s.take(s.len() as int) =~= s);
    }
}

/// The body of a request names the session, the workspace, the tool, its arguments and the
/// call; the action and the time limit only where there are any.
pub proof fn request_says_what_is_called(r: BackendRequest)
    ensures
        execute_body(r) matches JsonView::Obj(m) && {
            &&& m.contains(("session_id"@, JsonView::Str(r.session_id@)))
            &&& m.contains(("workspace"@, JsonView::Str(r.host_workspace@)))
            &&& m.contains(("name"@, JsonView::Str(r.name@)))
            &&& m.contains(("args"@, json_view(r.args)))
            &&& m.contains(("call_id"@, JsonView::Str(r.call_id@)))
            &&& r.action@.len() > 0 ==> m.contains(("action"@, JsonView::Str(r.action@)))
            &&& r.timeout_secs matches Some(n) ==> m.contains(("timeout_secs"@, JsonView::Uint(n)))
            &&& m.len() == 5 + (if r.action@.len() > 0 {
                1int
            } else {
                0
            }) + (if r.timeout_secs is Some {
                1int
            } else {
                0
            })
        },
{
    let m = execute_body(r)->Obj_0;
    let k = if r.action@.len() > 0 {
        1int
    } else {
        0
    };
    assert(m[0] == ("session_id"@, JsonView::Str(r.session_id@)));
    assert(m[1] == ("workspace"@, JsonView::Str(r.host_workspace@)));
    assert(m[2] == ("name"@, JsonView::Str(r.name@)));
    if r.action@.len() > 0 {
        assert(m[3] == ("action"@, JsonView::Str(r.action@)));
    }
    assert(m[3 + k] == ("args"@, json_view(r.args)));
    assert(m[4 + k] == ("call_id"@, JsonView::Str(r.call_id@)));
    if let Some(n) = r.timeout_secs {
        assert(m[5 + k] == ("timeout_secs"@, JsonView::Uint(n)));
    }
}

/// A tool may run as long as its arguments ask for, from a second to an hour; else as long as
/// it is given, within the same bounds; half a minute where nothing is said. The request may
/// take half a minute longer, but no more than an hour.
pub proof fn request_has_its_time(args: Json, given: Option<u64>)
    ensures
        u64_at(args, "timeout_secs"@) matches Some(n) ==> (1 <= n <= 3600 ==> timeout_of(args, given)
            == n),
        ({
            let asked = u64_at(args, "timeout_secs"@);
            asked is None || asked->0 == 0 || asked->0 > 3600 ==> {
                &&& given is None ==> timeout_of(args, given) == 30
                &&& given matches Some(m) ==> {
                    &&& m == 0 ==> timeout_of(args, given) == 1
                    &&& 1 <= m <= 3600 ==> timeout_of(args, given) == m
                    &&& m > 3600 ==> timeout_of(args, given) == 3600
                }
            }
        }),
        timeout_of(args, given) <= 3570 ==> call_limit(args, given) == timeout_of(args, given) + 30,
        timeout_of(args, given) > 3570 ==> call_limit(args, given) == 3600,
{
}

/// What follows a request: its answer is taken where there is one; a call that never reached
/// the service runs in this process, and one that may have reached it fails.
pub proof fn failed_request_is_not_repeated(outcome: RemoteOutcome)
    ensures
        outcome is Answered <==> after(outcome) is UseAnswer,
        outcome is NotSent ==> after(outcome) is RunLocally,
        outcome is Unreadable ==> after(outcome) is Fail,
        outcome matches RemoteOutcome::Failed { failure, .. } ==> {
            &&& failure == HttpFailure::ConnectionFailed || failure == HttpFailure::ConnectionRefused
                || failure == HttpFailure::NotConnected ==> after(outcome) is RunLocally
            &&& failure == HttpFailure::ConnectionReset || failure == HttpFailure::TimedOut
                || failure == HttpFailure::Other ==> (after(outcome) matches AfterView::Fail(r)
                && r.code == "WORKSPACE_EXEC_FAILED"@)
        },
{
}

/// The service of a command line: each option takes the argument behind it; without options it
/// listens on this machine alone, at a port that is free. The token of the environment goes
/// first, and without any token there is no service.
pub proof fn service_is_started_as_asked(h: Seq<char>, p: Seq<char>, t: Seq<char>, env: Seq<char>)
    ensures
        env.len() > 0 ==> serve_call(Seq::empty(), env) == Ok::<ServeView, Seq<char>>(
            ServeView { host: "127.0.0.1"@, port: 0, token: env },
        ),
        env.len() == 0 ==> serve_call(Seq::empty(), env) is Err,
        port_of(p) matches Some(n) ==> {
            &&& env.len() > 0 ==> serve_call(seq!["--host"@, h, "--port"@, p, "--token"@, t], env)
                == Ok::<ServeView, Seq<char>>(ServeView { host: h, port: n, token: env })
            &&& env.len() == 0 && t.len() > 0 ==> serve_call(
                seq!["--host"@, h, "--port"@, p, "--token"@, t],
                env,
            ) == Ok::<ServeView, Seq<char>>(ServeView { host: h, port: n, token: t })
            &&& env.len() == 0 && t.len() == 0 ==> serve_call(
                seq!["--host"@, h, "--port"@, p, "--token"@, t],
                env,
            ) is Err
        },
        port_of(p) is None ==> serve_call(seq!["--port"@, p], env) is Err,
        h != "--host"@ && h != "--port"@ && h != "--token"@ ==> serve_call(seq![h], env) is Err,
        number(p) matches Some(n) ==> (n <= 65535 ==> (port_of(p) matches Some(k) && k == n)),
        number(p) matches Some(n) ==> (n > 65535 ==> port_of(p) is None),
        number(p) is None ==> port_of(p) is None,
{
    reveal_strlit("--host");
    reveal_strlit("--port");
    reveal_strlit("--token");
    assert("--host"@[2] == 'h' && "--port"@[2] == 'p' && "--token"@.len() == 7);
    reveal_with_fuel(serve_options, 5);
}

/// The question of a call is its own, or each of its list: the text as it is, a name, options
/// and whether an answer of one's own is taken, which it is unless that is turned off.
pub proof fn questions_are_those_of_the_call(args: Json, v: Json)
    ensures
        member(args, "questions"@) is None ==> sent(args) == Ok::<Seq<Sent>, AskErrorView>(
            seq![sent_alone(args)],
        ),
        member(args, "questions"@) matches Some(Json::Arr(items)) ==> {
            &&& items@.len() == 0 ==> (sent(args) matches Err(e) && e.code == "EMPTY_QUESTIONS"@)
            &&& items@.len() > 0 ==> (sent(args) matches Ok(s) && s.len() == items@.len() && forall|
                i: int,
            |
                0 <= i < s.len() ==> #[trigger] s[i] == sent_item(items@[i]))
        },
        member(args, "questions"@) matches Some(q) ==> (!(q is Arr) ==> (sent(args) matches Err(e)
            && e.code == "INVALID_QUESTIONS"@)),
        str_at(v, "question"@) matches Some(q) ==> sent_item(v).question == q && sent_alone(
            v,
        ).question == q,
        sent_item(v).allow_custom <==> member(v, "allow_custom"@) != Some(Json::Bool(false)),
        sent_alone(v).allow_custom <==> member(v, "allow_custom"@) != Some(Json::Bool(false)),
        sent_item(v).options == member(v, "options"@),
        sent_alone(v).options == member(v, "options"@),
        member(v, "id"@) is None ==> sent_item(v).id is Absent,
        member(v, "id"@) matches Some(Json::Str(s)) ==> (!is_blank(s@) ==> sent_item(v).id
            == SentId::Text(s@)),
        member(v, "id"@) matches Some(Json::Str(s)) ==> (is_blank(s@) ==> sent_item(v).id is Bad),
        member(v, "id"@) matches Some(x) ==> (!(x is Str) ==> sent_item(v).id is Bad),
        sent_alone(v).id == SentId::Text("q1"@),
{
}

/// Options are the texts of a list, trimmed and in order; a blank one, or one that is no text,
/// is refused, and so are two that are alike.
pub proof fn options_are_trimmed_in_order(values: Seq<Json>, n: int)
    requires
        0 <= n <= values.len(),
    ensures
        options_upto(values, n) is Ok <==> forall|i: int|
            0 <= i < n ==> (#[trigger] values[i] matches Json::Str(s) && !is_blank(s@)),
        options_upto(values, n) matches Ok(v) ==> v.len() == n && forall|i: int|
            0 <= i < n ==> (values[i] matches Json::Str(s) && #[trigger] v[i] == trim(s@)),
        options_upto(values, n) matches Err(i) ==> 0 <= i < n && !(values[i] matches Json::Str(s)
            && !is_blank(s@)) && forall|k: int|
            0 <= k < i ==> (#[trigger] values[k] matches Json::Str(s) && !is_blank(s@)),
    decreases n,
{
    if n > 0 {
        options_are_trimmed_in_order(values, n - 1);
        if let Ok(v) = options_upto(values, n) {
            let front = options_upto(values, n - 1)->Ok_0;
            assert forall|i: int| 0 <= i < n implies (values[i] matches Json::Str(s)
                && #[trigger] v[i] == trim(s@)) by {
                if i < n - 1 {
                    assert(v[i] == front[i]);
                }
            }
        }
    }
}

/// A question is asked exactly when it has a text, a name that is good and not taken, options
/// that can be offered, and a way to answer it; it is then asked as it was sent, under its own
/// name or else its number.
pub proof fn good_questions_are_asked(s: Sent, index: int, earlier: Seq<QuestionView>)
    requires
        0 <= index,
    ensures
        ({
            let id = match s.id {
                SentId::Text(t) => t,
                _ => "q"@ + dec((index + 1) as nat),
            };
            let r = one_form(s, index, earlier);
            let free = forall|i: int| 0 <= i < earlier.len() ==> (#[trigger] earlier[i]).id != id;
            &&& r is Ok <==> !is_blank(s.question) && !(s.id is Bad) && free && (options_of(
                s.options,
                id,
            ) matches Ok(o) && (o.len() > 0 || s.allow_custom))
            &&& r matches Ok(q) ==> {
                &&& q.id == id
                &&& q.question == s.question
                &&& q.allow_custom == s.allow_custom
                &&& options_of(s.options, id) == Ok::<Seq<Seq<char>>, AskErrorView>(q.options)
            }
            &&& is_blank(s.question) ==> (r matches Err(e) && e.code == "MISSING_QUESTION"@)
            &&& !is_blank(s.question) && s.id is Bad ==> (r matches Err(e) && e.code
                == "INVALID_QUESTION_ID"@)
            &&& !is_blank(s.question) && !(s.id is Bad) && !free ==> (r matches Err(e) && e.code
                == "DUPLICATE_QUESTION_ID"@)
        }),
{
}

/// The options of a question: none where it has none, and else those of its list, if no two
/// are alike.
pub proof fn alike_options_are_refused(options: Option<Json>, id: Seq<char>)
    ensures
        options is None ==> options_of(options, id) == Ok::<Seq<Seq<char>>, AskErrorView>(
            Seq::empty(),
        ),
        options matches Some(Json::Arr(values)) ==> {
            &&& options_upto(values@, values@.len() as int) is Err ==> (options_of(
                options,
                id,
            ) matches Err(e) && e.code == "INVALID_OPTION"@)
            &&& options_upto(values@, values@.len() as int) matches Ok(v) ==> {
                &&& v.no_duplicates() ==> options_of(options, id) == Ok::<
                    Seq<Seq<char>>,
                    AskErrorView,
                >(v)
                &&& !v.no_duplicates() ==> (options_of(options, id) matches Err(e) && e.code
                    == "DUPLICATE_OPTION"@)
            }
        },
        options matches Some(o) ==> (!(o is Arr) ==> (options_of(options, id) matches Err(e)
            && e.code == "INVALID_OPTIONS"@)),
{
    if let Some(Json::Arr(values)) = options {
        if let Ok(v) = options_upto(values@, values@.len() as int) {
            assert(v.no_duplicates() <==> distinct(v)) by {
                if distinct(v) {
                    assert forall|i: int, j: int| 0 <= i < v.len() && 0 <= j < v.len() && i
                        != j implies v[i] != v[j] by {
                        if i < j {
                            assert(v[i] != v[j]);
                        } else {
                            assert(v[j] != v[i]);
                        }
                    }
                }
            }
        }
    }
}

/// The questions of a call are asked together or not at all, in order; the first that cannot
/// be asked says why.
pub proof fn questions_are_asked_together(s: Seq<Sent>, n: int)
    requires
        0 <= n < s.len(),
    ensures
        forms_upto(s, 0) == Ok::<Seq<QuestionView>, AskErrorView>(Seq::empty()),
        forms_upto(s, n) matches Err(e) ==> forms_upto(s, n + 1) == Err::<
            Seq<QuestionView>,
            AskErrorView,
        >(e),
        forms_upto(s, n) matches Ok(front) ==> {
            &&& one_form(s[n], n, front) matches Err(e) ==> forms_upto(s, n + 1) == Err::<
                Seq<QuestionView>,
                AskErrorView,
            >(e)
            &&& one_form(s[n], n, front) matches Ok(q) ==> forms_upto(s, n + 1) == Ok::<
                Seq<QuestionView>,
                AskErrorView,
            >(front.push(q))
        },
{
}

/// The change of a file is told in one word, in this order of weight.
pub proof fn changes_have_words(s: FileStatus)
    ensures
        s.added ==> change_word(s) == Some("added"@),
        !s.added && s.deleted ==> change_word(s) == Some("deleted"@),
        !s.added && !s.deleted && s.modified ==> change_word(s) == Some("modified"@),
        !s.added && !s.deleted && !s.modified && s.renamed ==> change_word(s) == Some("renamed"@),
        !s.added && !s.deleted && !s.modified && !s.renamed ==> change_word(s) is None,
{
}

/// Files that changed are listed, each with its word, in order; others are not.
pub proof fn changed_files_are_listed(files: Seq<(String, FileStatus)>)
    ensures
        changed(files) == files.filter(
            |f: (String, FileStatus)| f.1.added || f.1.deleted || f.1.modified || f.1.renamed,
        ).map_values(|f: (String, FileStatus)| (f.0@, change_word(f.1)->0)),
    decreases files.len(),
{
    reveal(Seq::filter);
    let some = |f: (String, FileStatus)| f.1.added || f.1.deleted || f.1.modified || f.1.renamed;
    let of = |f: (String, FileStatus)| (f.0@, change_word(f.1)->0);
    if files.len() > 0 {
        let front = files.drop_last();
        changed_files_are_listed(front);
        if some(files.last()) {
            assert(front.filter(some).push(files.last()).map_values(of) =~= front.filter(
                some,
            ).map_values(of).push(of(files.last())));
        }
    }
    assert(changed(files) =~= files.filter(some).map_values(of));
}

/// Branches with a name are listed in order, and the one that is checked out is marked.
pub proof fn branches_are_listed(names: Seq<Seq<char>>, head: Option<Seq<char>>)
    ensures
        branches(names, head) == names.filter(|n: Seq<char>| n.len() > 0).map_values(
            |n: Seq<char>| (n, head == Some(n)),
        ),
    decreases names.len(),
{
    reveal(Seq::filter);
    let full = |n: Seq<char>| n.len() > 0;
    let of = |n: Seq<char>| (n, head == Some(n));
    if names.len() > 0 {
        let front = names.drop_last();
        branches_are_listed(front, head);
        if full(names.last()) {
            assert(front.filter(full).push(names.last()).map_values(of) =~= front.filter(
                full,
            ).map_values(of).push(of(names.last())));
        }
    }
    assert(branches(names, head) =~= names.filter(full).map_values(of));
}

/// The branch that is checked out, by its name; none is where the head is no branch.
pub proof fn branch_is_named(head: Head)
    ensures
        head is NoRepository || head is Absent ==> branch_of(head) is Err,
        head matches Head::At { is_branch, shorthand } ==> {
            &&& !is_branch ==> (branch_of(head) matches Ok(b) && b.len() == 0)
            &&& is_branch ==> (shorthand matches Some(s) ==> branch_of(head) == Ok::<
                Seq<char>,
                Seq<char>,
            >(s@))
            &&& is_branch && shorthand is None ==> branch_of(head) == Ok::<Seq<char>, Seq<char>>(
                "HEAD"@,
            )
        },
{
    reveal_strlit("");
}

/// The lines of a patch stand one behind the other, each behind its mark but for headers.
pub proof fn patch_lines_stand_behind_their_marks(lines: Seq<DiffLine>, l: DiffLine)
    ensures
        patch_lines(Seq::empty()).len() == 0,
        l.origin == 'F' || l.origin == 'H' ==> patch_lines(lines.push(l)) == patch_lines(lines)
            + l.content@,
        l.origin != 'F' && l.origin != 'H' ==> patch_lines(lines.push(l)) == patch_lines(lines) + (
        seq![l.origin] + l.content@),
{
    assert(lines.push(l).drop_last() =~= lines);
}

/// The dashboard shows the first of its lists, and each task by how far it is.
pub proof fn dashboard_shows_the_first(list: Seq<Seq<char>>, n: int)
    requires
        0 <= n,
    ensures
        first(list, n).is_prefix_of(list),
        list.len() <= n ==> first(list, n).len() == list.len(),
        list.len() > n ==> first(list, n).len() == n,
        status_text(TodoStatus::Pending) == "idle"@,
        status_text(TodoStatus::InProgress) == "in_progress"@,
        status_text(TodoStatus::Completed) == "completed"@,
        status_text(TodoStatus::Cancelled) == "cancelled"@,
{
    assert(list.take(list.len() as int) =~= list);
}

} // verus!
