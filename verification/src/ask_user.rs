//! Questions to the user, brought into one form.

use vstd::prelude::*;

use crate::format::{dec, decimal_size};
use crate::json::{bool_at, member, str_at, text_eq, texts, Json};
use crate::text::{blank, chars_of, is_blank, lemma_trim_settles, string_of, trim, trim_of};

verus! {

/// One question or several.
#[derive(Debug, Clone, Copy, PartialEq, Eq, Structural)]
pub enum NormalizedAskMode {
    Single,
    Batch,
}

/// A question that can be answered.
#[derive(Debug, PartialEq, Eq)]
pub struct NormalizedAskQuestion {
    pub id: String,
    pub question: String,
    pub options: Vec<String>,
    pub allow_custom: bool,
}

/// Questions with distinct names.
#[derive(Debug, PartialEq, Eq)]
pub struct NormalizedAsk {
    pub mode: NormalizedAskMode,
    pub questions: Vec<NormalizedAskQuestion>,
}

/// Why questions cannot be asked.
#[derive(Debug, PartialEq, Eq)]
pub struct AskUserError {
    pub code: &'static str,
    pub message: String,
}

/// What a question says.
#[verifier::ext_equal]
pub struct QuestionView {
    pub id: Seq<char>,
    pub question: Seq<char>,
    pub options: Seq<Seq<char>>,
    pub allow_custom: bool,
}

impl View for NormalizedAskQuestion {
    type V = QuestionView;

    open spec fn view(&self) -> QuestionView {
        QuestionView {
            id: self.id@,
            question: self.question@,
            options: texts(self.options@),
            allow_custom: self.allow_custom,
        }
    }
}

/// What a list of questions says.
pub open spec fn question_views(v: Seq<NormalizedAskQuestion>) -> Seq<QuestionView> {
    Seq::new(v.len(), |i: int| v[i]@)
}

/// An error's code and message.
#[verifier::ext_equal]
pub struct AskErrorView {
    pub code: Seq<char>,
    pub message: Seq<char>,
}

impl View for AskUserError {
    type V = AskErrorView;

    open spec fn view(&self) -> AskErrorView {
        AskErrorView { code: self.code@, message: self.message@ }
    }
}

/// The name that a question is sent with.
pub enum SentId {
    Absent,
    Text(Seq<char>),
    Bad,
}

/// A question as it is sent.
pub struct Sent {
    pub question: Seq<char>,
    pub id: SentId,
    pub options: Option<Json>,
    pub allow_custom: bool,
}

/// A text member, empty when it is not there.
pub open spec fn text_at(v: Json, key: Seq<char>) -> Seq<char> {
    match str_at(v, key) {
        Some(s) => s,
        None => ""@,
    }
}

/// A flag that is on unless it says otherwise.
pub open spec fn on_unless_off(v: Json, key: Seq<char>) -> bool {
    match bool_at(v, key) {
        Some(b) => b,
        None => true,
    }
}

/// The name that a question is sent with: it has to be a text that is not blank.
pub open spec fn sent_id(v: Json) -> SentId {
    match member(v, "id"@) {
        None => SentId::Absent,
        Some(Json::Str(s)) => if is_blank(s@) {
            SentId::Bad
        } else {
            SentId::Text(s@)
        },
        Some(_) => SentId::Bad,
    }
}

/// A question of a list as it is sent.
pub open spec fn sent_item(v: Json) -> Sent {
    Sent {
        question: text_at(v, "question"@),
        id: sent_id(v),
        options: member(v, "options"@),
        allow_custom: on_unless_off(v, "allow_custom"@),
    }
}

/// The question that the fields of the call itself make up.
pub open spec fn sent_alone(v: Json) -> Sent {
    Sent {
        question: text_at(v, "question"@),
        id: SentId::Text("q1"@),
        options: member(v, "options"@),
        allow_custom: on_unless_off(v, "allow_custom"@),
    }
}

/// The questions of a call as they are sent, or why there are none.
pub open spec fn sent(args: Json) -> Result<Seq<Sent>, AskErrorView> {
    match member(args, "questions"@) {
        None => Ok(seq![sent_alone(args)]),
        Some(Json::Arr(items)) => if items@.len() == 0 {
            Err(
                AskErrorView {
                    code: "EMPTY_QUESTIONS"@,
                    message: "at least one question is required"@,
                },
            )
        } else {
            Ok(Seq::new(items@.len(), |i: int| sent_item(items@[i])))
        },
        Some(_) => Err(
            AskErrorView { code: "INVALID_QUESTIONS"@, message: "questions must be an array"@ },
        ),
    }
}

/// The options below `n`, trimmed, or the first that is no text or blank.
pub open spec fn options_upto(values: Seq<Json>, n: int) -> Result<Seq<Seq<char>>, int>
    decreases n,
{
    if n <= 0 {
        Ok(Seq::<Seq<char>>::empty())
    } else {
        match options_upto(values, n - 1) {
            Err(i) => Err(i),
            Ok(front) => match values[n - 1] {
                Json::Str(s) => if is_blank(s@) {
                    Err(n - 1)
                } else {
                    Ok(front.push(trim(s@)))
                },
                _ => Err(n - 1),
            },
        }
    }
}

/// No text occurs twice.
pub open spec fn distinct(v: Seq<Seq<char>>) -> bool {
    forall|i: int, j: int| 0 <= i < j < v.len() ==> #[trigger] v[i] != #[trigger] v[j]
}

/// The options of a question, or why they cannot be offered.
pub open spec fn options_of(options: Option<Json>, id: Seq<char>) -> Result<
    Seq<Seq<char>>,
    AskErrorView,
> {
    match options {
        None => Ok(Seq::<Seq<char>>::empty()),
        Some(Json::Arr(values)) => match options_upto(values@, values@.len() as int) {
            Err(i) => Err(
                AskErrorView {
                    code: "INVALID_OPTION"@,
                    message: "question "@ + id + " option "@ + dec(i as nat)
                        + " must be a non-empty string"@,
                },
            ),
            Ok(v) => if distinct(v) {
                Ok(v)
            } else {
                Err(
                    AskErrorView {
                        code: "DUPLICATE_OPTION"@,
                        message: "question "@ + id + " contains duplicate options"@,
                    },
                )
            },
        },
        Some(_) => Err(
            AskErrorView {
                code: "INVALID_OPTIONS"@,
                message: "question "@ + id + " options must be an array"@,
            },
        ),
    }
}

/// Some earlier question has this name.
pub open spec fn taken(earlier: Seq<QuestionView>, id: Seq<char>) -> bool {
    exists|i: int| 0 <= i < earlier.len() && (#[trigger] earlier[i]).id == id
}

/// A question in its one form, or why it cannot be asked.
pub open spec fn one_form(s: Sent, index: int, earlier: Seq<QuestionView>) -> Result<
    QuestionView,
    AskErrorView,
> {
    let at = "questions["@ + dec(index as nat) + "]"@;
    if is_blank(s.question) {
        Err(AskErrorView { code: "MISSING_QUESTION"@, message: at + ".question is required"@ })
    } else if s.id is Bad {
        Err(
            AskErrorView {
                code: "INVALID_QUESTION_ID"@,
                message: at + ".id must be a non-empty string"@,
            },
        )
    } else {
        let id = match s.id {
            SentId::Text(t) => t,
            _ => "q"@ + dec((index + 1) as nat),
        };
        if taken(earlier, id) {
            Err(
                AskErrorView {
                    code: "DUPLICATE_QUESTION_ID"@,
                    message: "duplicate question id: "@ + id,
                },
            )
        } else {
            match options_of(s.options, id) {
                Err(e) => Err(e),
                Ok(options) => if options.len() == 0 && !s.allow_custom {
                    Err(
                        AskErrorView {
                            code: "UNANSWERABLE_QUESTION"@,
                            message: "question "@ + id + " has no valid answer path"@,
                        },
                    )
                } else {
                    Ok(
                        QuestionView {
                            id,
                            question: s.question,
                            options,
                            allow_custom: s.allow_custom,
                        },
                    )
                },
            }
        }
    }
}

/// The first `n` questions in their one form, or why one of them cannot be asked.
pub open spec fn forms_upto(sent: Seq<Sent>, n: int) -> Result<Seq<QuestionView>, AskErrorView>
    decreases n,
{
    if n <= 0 {
        Ok(Seq::<QuestionView>::empty())
    } else {
        match forms_upto(sent, n - 1) {
            Err(e) => Err(e),
            Ok(front) => match one_form(sent[n - 1], n - 1, front) {
                Err(e) => Err(e),
                Ok(q) => Ok(front.push(q)),
            },
        }
    }
}

/// The questions of a call in their one form, or why they cannot be asked.
pub open spec fn normalized(args: Json) -> Result<Seq<QuestionView>, AskErrorView> {
    match sent(args) {
        Err(e) => Err(e),
        Ok(s) => forms_upto(s, s.len() as int),
    }
}

enum IdRef<'a> {
    Absent,
    Text(&'a str),
    Bad,
}

struct SentRef<'a> {
    question: &'a str,
    id: IdRef<'a>,
    options: Option<&'a Json>,
    allow_custom: bool,
}

spec fn ref_view(r: SentRef) -> Sent {
    Sent {
        question: r.question@,
        id: match r.id {
            IdRef::Absent => SentId::Absent,
            IdRef::Text(t) => SentId::Text(t@),
            IdRef::Bad => SentId::Bad,
        },
        options: match r.options {
            Some(o) => Some(*o),
            None => None,
        },
        allow_custom: r.allow_custom,
    }
}

fn is_blank_text(s: &str) -> (r: bool)
    ensures
        r == is_blank(s@),
{
    let c: Vec<char> = chars_of(s);
    blank(c.as_slice())
}

fn read_text<'a>(v: &'a Json, key: &str) -> (r: &'a str)
    ensures
        r@ == text_at(*v, key@),
{
    match v.get_str(key) {
        Some(s) => s,
        None => "",
    }
}

fn read_flag(v: &Json, key: &str) -> (r: bool)
    ensures
        r == on_unless_off(*v, key@),
{
    match v.get_bool(key) {
        Some(b) => b,
        None => true,
    }
}

fn read_item<'a>(v: &'a Json) -> (r: SentRef<'a>)
    ensures
        ref_view(r) == sent_item(*v),
{
    let id: IdRef<'a> = match v.get("id") {
        None => IdRef::Absent,
        Some(Json::Str(s)) => if is_blank_text(s.as_str()) {
            IdRef::Bad
        } else {
            IdRef::Text(s.as_str())
        },
        Some(_) => IdRef::Bad,
    };
    SentRef {
        question: read_text(v, "question"),
        id,
        options: v.get("options"),
        allow_custom: read_flag(v, "allow_custom"),
    }
}

fn error(code: &'static str, message: String) -> (e: AskUserError)
    ensures
        e@ == (AskErrorView { code: code@, message: message@ }),
{
    AskUserError { code, message }
}

fn about(id: &str, what: &str) -> (out: String)
    ensures
        out@ == "question "@ + id@ + what@,
{
    let mut out: String = "question ".to_owned();
    out.append(id);
    out.append(what);
    out
}

proof fn lemma_options_stay(values: Seq<Json>, a: int, b: int)
    requires
        0 <= a <= b,
        options_upto(values, a) is Err,
    ensures
        options_upto(values, b) == options_upto(values, a),
    decreases b - a,
{
    if a < b {
        lemma_options_stay(values, a, b - 1);
    }
}

fn read_options(options: Option<&Json>, id: &str) -> (r: Result<Vec<String>, AskUserError>)
    ensures
        ({
            let o = match options {
                Some(j) => Some(*j),
                None => None,
            };
            match r {
                Ok(v) => options_of(o, id@) == Ok::<Seq<Seq<char>>, AskErrorView>(texts(v@)),
                Err(e) => options_of(o, id@) == Err::<Seq<Seq<char>>, AskErrorView>(e@),
            }
        }),
{
    let mut out: Vec<String> = Vec::new();
    proof {
        assert(texts(out@) =~= Seq::<Seq<char>>::empty());
    }
    let values: &Vec<Json> = match options {
        None => {
            return Ok(out);
        },
        Some(Json::Arr(v)) => v,
        Some(_) => {
            return Err(error("INVALID_OPTIONS", about(id, " options must be an array")));
        },
    };
    let n: usize = values.len();
    let mut i: usize = 0;
    while i < n
        invariant
            i <= n == values@.len(),
            options == Some(&Json::Arr(*values)),
            options_upto(values@, i as int) == Ok::<Seq<Seq<char>>, int>(texts(out@)),
        decreases n - i,
    {
        let ghost before = texts(out@);
        let mut ok: bool = false;
        if let Json::Str(s) = &values[i] {
            if !is_blank_text(s.as_str()) {
                let c: Vec<char> = chars_of(s.as_str());
                let t: Vec<char> = trim_of(c.as_slice());
                let o: String = string_of(t.as_slice());
                out.push(o);
                ok = true;
                proof {
                    assert(texts(out@) =~= before.push(trim(s@)));
                }
            }
        }
        if !ok {
            proof {
                assert(options_upto(values@, i + 1) is Err);
                lemma_options_stay(values@, i + 1, n as int);
            }
            let mut what: String = " option ".to_owned();
            what.append(decimal_size(i).as_str());
            what.append(" must be a non-empty string");
            let message: String = about(id, what.as_str());
            proof {
                assert("question "@ + id@ + (" option "@ + dec(i as nat)
                    + " must be a non-empty string"@) =~= "question "@ + id@ + " option "@ + dec(
                    i as nat,
                ) + " must be a non-empty string"@);
            }
            return Err(error("INVALID_OPTION", message));
        }
        i = i + 1;
    }
    let ghost v = texts(out@);
    let mut a: usize = 0;
    while a < out.len()
        invariant
            a <= out@.len(),
            v == texts(out@),
            options_upto(values@, values@.len() as int) == Ok::<Seq<Seq<char>>, int>(v),
            options == Some(&Json::Arr(*values)),
            forall|i: int, j: int|
                0 <= i < a && i < j < v.len() ==> #[trigger] v[i] != #[trigger] v[j],
        decreases out@.len() - a,
    {
        let mut b: usize = a + 1;
        while b < out.len()
            invariant
                a < b <= out@.len(),
                a < out@.len(),
                v == texts(out@),
                options_upto(values@, values@.len() as int) == Ok::<Seq<Seq<char>>, int>(v),
                options == Some(&Json::Arr(*values)),
                forall|j: int| a < j < b ==> v[a as int] != #[trigger] v[j],
            decreases out@.len() - b,
        {
            proof {
                assert(v[a as int] == out@[a as int]@);
                assert(v[b as int] == out@[b as int]@);
            }
            if text_eq(out[a].as_str(), out[b].as_str()) {
                proof {
                    assert(!distinct(v));
                }
                return Err(error("DUPLICATE_OPTION", about(id, " contains duplicate options")));
            }
            b = b + 1;
        }
        a = a + 1;
    }
    Ok(out)
}

fn is_taken(earlier: &[NormalizedAskQuestion], id: &str) -> (r: bool)
    ensures
        r == taken(question_views(earlier@), id@),
{
    let ghost v = question_views(earlier@);
    let mut i: usize = 0;
    while i < earlier.len()
        invariant
            i <= earlier@.len(),
            v == question_views(earlier@),
            forall|k: int| 0 <= k < i ==> (#[trigger] v[k]).id != id@,
        decreases earlier@.len() - i,
    {
        proof {
            assert(v[i as int] == earlier@[i as int]@);
        }
        if text_eq(earlier[i].id.as_str(), id) {
            proof {
                assert(v[i as int].id == id@);
            }
            return true;
        }
        i = i + 1;
    }
    false
}

fn place(index: usize, what: &str) -> (out: String)
    ensures
        out@ == "questions["@ + dec(index as nat) + "]"@ + what@,
{
    let mut out: String = "questions[".to_owned();
    out.append(decimal_size(index).as_str());
    out.append("]");
    out.append(what);
    out
}

fn form(s: &SentRef, index: usize, earlier: &[NormalizedAskQuestion]) -> (r: Result<
    NormalizedAskQuestion,
    AskUserError,
>)
    requires
        index < usize::MAX,
    ensures
        match r {
            Ok(q) => one_form(ref_view(*s), index as int, question_views(earlier@)) == Ok::<
                QuestionView,
                AskErrorView,
            >(q@),
            Err(e) => one_form(ref_view(*s), index as int, question_views(earlier@)) == Err::<
                QuestionView,
                AskErrorView,
            >(e@),
        },
{
    if is_blank_text(s.question) {
        return Err(error("MISSING_QUESTION", place(index, ".question is required")));
    }
    let id: String = match s.id {
        IdRef::Bad => {
            return Err(
                error("INVALID_QUESTION_ID", place(index, ".id must be a non-empty string")),
            );
        },
        IdRef::Text(t) => t.to_owned(),
        IdRef::Absent => {
            let mut t: String = "q".to_owned();
            t.append(decimal_size(index + 1).as_str());
            t
        },
    };
    if is_taken(earlier, id.as_str()) {
        let mut message: String = "duplicate question id: ".to_owned();
        message.append(id.as_str());
        return Err(error("DUPLICATE_QUESTION_ID", message));
    }
    let options: Vec<String> = match read_options(s.options, id.as_str()) {
        Ok(o) => o,
        Err(e) => {
            return Err(e);
        },
    };
    if options.len() == 0 && !s.allow_custom {
        return Err(
            error("UNANSWERABLE_QUESTION", about(id.as_str(), " has no valid answer path")),
        );
    }
    Ok(
        NormalizedAskQuestion {
            id,
            question: s.question.to_owned(),
            options,
            allow_custom: s.allow_custom,
        },
    )
}

proof fn lemma_forms_stay(sent: Seq<Sent>, a: int, b: int)
    requires
        0 <= a <= b,
        forms_upto(sent, a) is Err,
    ensures
        forms_upto(sent, b) == forms_upto(sent, a),
    decreases b - a,
{
    if a < b {
        lemma_forms_stay(sent, a, b - 1);
    }
}

/// Brings the questions of a call into one form, or says why they cannot be asked.
pub fn normalize_ask_user(args: &Json) -> (r: Result<NormalizedAsk, AskUserError>)
    ensures
        match r {
            Ok(ask) => {
                &&& normalized(*args) == Ok::<Seq<QuestionView>, AskErrorView>(
                    question_views(ask.questions@),
                )
                &&& ask.mode == (if ask.questions@.len() == 1 {
                    NormalizedAskMode::Single
                } else {
                    NormalizedAskMode::Batch
                })
            },
            Err(e) => normalized(*args) == Err::<Seq<QuestionView>, AskErrorView>(e@),
        },
{
    let mut questions: Vec<NormalizedAskQuestion> = Vec::new();
    proof {
        assert(question_views(questions@) =~= Seq::<QuestionView>::empty());
    }
    match args.get("questions") {
        None => {
            let alone: SentRef = SentRef {
                question: read_text(args, "question"),
                id: IdRef::Text("q1"),
                options: args.get("options"),
                allow_custom: read_flag(args, "allow_custom"),
            };
            let ghost s = seq![sent_alone(*args)];
            proof {
                assert(ref_view(alone) == s[0]);
                reveal_with_fuel(forms_upto, 2);
            }
            match form(&alone, 0, questions.as_slice()) {
                Err(e) => Err(e),
                Ok(q) => {
                    let ghost qv = q@;
                    questions.push(q);
                    proof {
                        assert(question_views(questions@) =~= Seq::<QuestionView>::empty().push(
                            qv,
                        ));
                    }
                    Ok(NormalizedAsk { mode: NormalizedAskMode::Single, questions })
                },
            }
        },
        Some(Json::Arr(items)) => {
            let n: usize = items.len();
            if n == 0 {
                return Err(
                    error("EMPTY_QUESTIONS", "at least one question is required".to_owned()),
                );
            }
            let ghost s = Seq::new(items@.len(), |i: int| sent_item(items@[i]));
            let mut i: usize = 0;
            while i < n
                invariant
                    i <= n == items@.len(),
                    s == Seq::new(items@.len(), |i: int| sent_item(items@[i])),
                    member(*args, "questions"@) == Some(Json::Arr(*items)),
                    n > 0,
                    questions@.len() == i,
                    forms_upto(s, i as int) == Ok::<Seq<QuestionView>, AskErrorView>(
                        question_views(questions@),
                    ),
                decreases n - i,
            {
                let ghost before = question_views(questions@);
                let item: SentRef = read_item(&items[i]);
                match form(&item, i, questions.as_slice()) {
                    Err(e) => {
                        proof {
                            assert(forms_upto(s, i + 1) is Err);
                            lemma_forms_stay(s, i + 1, n as int);
                        }
                        return Err(e);
                    },
                    Ok(q) => {
                        let ghost qv = q@;
                        questions.push(q);
                        proof {
                            assert(question_views(questions@) =~= before.push(qv));
                        }
                    },
                }
                i = i + 1;
            }
            let mode: NormalizedAskMode = if n == 1 {
                NormalizedAskMode::Single
            } else {
                NormalizedAskMode::Batch
            };
            Ok(NormalizedAsk { mode, questions })
        },
        Some(_) => Err(error("INVALID_QUESTIONS", "questions must be an array".to_owned())),
    }
}

/// An option that can be offered: not empty, and without white space at either end.
pub open spec fn offerable(option: Seq<char>) -> bool {
    option.len() > 0 && trim(option) == option
}

/// A question that can be asked: it has a text, a name, options that are neither
/// blank nor alike, and a way to answer it.
pub open spec fn answerable(q: QuestionView) -> bool {
    &&& !is_blank(q.question)
    &&& !is_blank(q.id)
    &&& forall|i: int| 0 <= i < q.options.len() ==> offerable(#[trigger] q.options[i])
    &&& distinct(q.options)
    &&& q.options.len() > 0 || q.allow_custom
}

/// Whatever is asked can be answered, and no two questions have the same name.
pub proof fn asked_questions_can_be_answered(args: Json)
    ensures
        normalized(args) matches Ok(qs) ==> {
            &&& qs.len() > 0
            &&& forall|i: int| 0 <= i < qs.len() ==> answerable(#[trigger] qs[i])
            &&& forall|i: int, j: int|
                0 <= i < j < qs.len() ==> (#[trigger] qs[i]).id != (#[trigger] qs[j]).id
        },
{
    if let Ok(s) = sent(args) {
        reveal_strlit("q1");
        assert("q1"@[0] == 'q');
        lemma_forms_answerable(s, s.len() as int);
    }
}

proof fn lemma_options_offerable(values: Seq<Json>, n: int)
    ensures
        options_upto(values, n) matches Ok(v) ==> forall|i: int|
            0 <= i < v.len() ==> offerable(#[trigger] v[i]),
    decreases n,
{
    if n > 0 {
        lemma_options_offerable(values, n - 1);
        if let Json::Str(s) = values[n - 1] {
            if !is_blank(s@) {
                lemma_trim_settles(s@);
            }
        }
    }
}

proof fn lemma_forms_answerable(s: Seq<Sent>, n: int)
    requires
        0 <= n <= s.len(),
        forall|i: int|
            0 <= i < s.len() ==> ((#[trigger] s[i]).id matches SentId::Text(t) ==> !is_blank(t)),
    ensures
        forms_upto(s, n) matches Ok(qs) ==> {
            &&& qs.len() == n
            &&& forall|i: int| 0 <= i < qs.len() ==> answerable(#[trigger] qs[i])
            &&& forall|i: int, j: int|
                0 <= i < j < qs.len() ==> (#[trigger] qs[i]).id != (#[trigger] qs[j]).id
        },
    decreases n,
{
    if n > 0 {
        lemma_forms_answerable(s, n - 1);
        if let Ok(front) = forms_upto(s, n - 1) {
            if let Ok(q) = one_form(s[n - 1], n - 1, front) {
                let all = front.push(q);
                match s[n - 1].options {
                    None => {
                        assert(distinct(Seq::<Seq<char>>::empty()));
                    },
                    Some(Json::Arr(values)) => {
                        lemma_options_offerable(values@, values@.len() as int);
                    },
                    _ => {},
                }
                if s[n - 1].id is Absent {
                    reveal_strlit("q");
                    assert(q.id[0] == 'q');
                }
                assert forall|i: int| 0 <= i < all.len() implies answerable(#[trigger] all[i]) by {
                    if i < front.len() {
                        assert(all[i] == front[i]);
                    }
                }
                assert forall|i: int, j: int| 0 <= i < j < all.len() implies (#[trigger] all[i]).id
                    != (#[trigger] all[j]).id by {
                    assert(all[i] == front[i]);
                    if j < front.len() {
                        assert(all[j] == front[j]);
                    } else if front[i].id == q.id {
                        assert(taken(front, q.id));
                    }
                }
            }
        }
    }
}

} // verus!
