//! What the dashboard shows of the workspace.

use vstd::prelude::*;

use crate::json::{opt_text, texts};

verus! {

/// A document that was read.
#[derive(Debug, PartialEq, Eq)]
pub struct DashboardDocument {
    pub tag: String,
    pub path: String,
    pub turns_since_read: u32,
    pub is_stale: bool,
}

/// How many documents are shown.
pub const MAX_DOCUMENTS: usize = 20;

/// How many edits are shown.
pub const MAX_EDITS: usize = 10;

/// The first of some texts.
pub open spec fn first(list: Seq<Seq<char>>, n: int) -> Seq<Seq<char>> {
    if list.len() <= n {
        list
    } else {
        list.take(n)
    }
}

/// The documents that were read first, as many as are shown.
pub fn build_documents(files_read: &[String]) -> (out: Vec<DashboardDocument>)
    ensures
        out@.len() == first(texts(files_read@), MAX_DOCUMENTS as int).len(),
        forall|i: int|
            0 <= i < out@.len() ==> (#[trigger] out@[i]).path@ == texts(files_read@)[i]
                && out@[i].tag@ == "doc"@ && out@[i].turns_since_read == 1 && !out@[i].is_stale,
{
    let mut out: Vec<DashboardDocument> = Vec::new();
    let mut i: usize = 0;
    while i < files_read.len() && i < MAX_DOCUMENTS
        invariant
            i <= files_read@.len(),
            i <= MAX_DOCUMENTS,
            out@.len() == i,
            forall|j: int|
                0 <= j < i ==> (#[trigger] out@[j]).path@ == texts(files_read@)[j] && out@[j].tag@
                    == "doc"@ && out@[j].turns_since_read == 1 && !out@[j].is_stale,
        decreases files_read@.len() - i,
    {
        out.push(
            DashboardDocument {
                tag: "doc".to_owned(),
                path: files_read[i].clone(),
                turns_since_read: 1,
                is_stale: false,
            },
        );
        i = i + 1;
    }
    out
}

/// The files that were written first, as many as are shown.
pub fn build_recent_edits(files_written: &[String]) -> (out: Vec<String>)
    ensures
        out@.len() == first(texts(files_written@), MAX_EDITS as int).len(),
        forall|i: int|
            0 <= i < out@.len() ==> (#[trigger] out@[i])@ == "edit: "@ + texts(files_written@)[i],
{
    let mut out: Vec<String> = Vec::new();
    let mut i: usize = 0;
    while i < files_written.len() && i < MAX_EDITS
        invariant
            i <= files_written@.len(),
            i <= MAX_EDITS,
            out@.len() == i,
            forall|j: int|
                0 <= j < i ==> (#[trigger] out@[j])@ == "edit: "@ + texts(files_written@)[j],
        decreases files_written@.len() - i,
    {
        let mut line: String = "edit: ".to_owned();
        line.append(files_written[i].as_str());
        out.push(line);
        i = i + 1;
    }
    out
}

/// How far a task is.
#[derive(Debug, Clone, Copy, PartialEq, Eq, Structural)]
pub enum TodoStatus {
    Pending,
    InProgress,
    Completed,
    Cancelled,
}

/// A task.
#[derive(Debug, PartialEq, Eq)]
pub struct TodoItem {
    pub id: String,
    pub title: String,
    pub description: String,
    pub status: TodoStatus,
    pub evidence: Option<String>,
}

/// The tasks of a session.
#[derive(Debug, PartialEq, Eq)]
pub struct TodoStore {
    pub items: Vec<TodoItem>,
    pub current_id: Option<String>,
}

/// A task as it is shown.
#[derive(Debug, PartialEq, Eq)]
pub struct DashboardTask {
    pub id: String,
    pub subject: String,
    pub description: String,
    pub status: String,
    pub evidence: Option<String>,
}

/// How far a task is, in words.
pub open spec fn status_text(s: TodoStatus) -> Seq<char> {
    match s {
        TodoStatus::Pending => "idle"@,
        TodoStatus::InProgress => "in_progress"@,
        TodoStatus::Completed => "completed"@,
        TodoStatus::Cancelled => "cancelled"@,
    }
}

/// Whether a task is shown as it is.
pub open spec fn shows(t: DashboardTask, item: TodoItem) -> bool {
    &&& t.id@ == item.id@
    &&& t.subject@ == item.title@
    &&& t.description@ == item.description@
    &&& t.status@ == status_text(item.status)
    &&& opt_text(t.evidence) == opt_text(item.evidence)
}

fn dashboard_task(item: &TodoItem) -> (t: DashboardTask)
    ensures
        shows(t, *item),
{
    DashboardTask {
        id: item.id.clone(),
        subject: item.title.clone(),
        description: item.description.clone(),
        status: match item.status {
            TodoStatus::Pending => "idle".to_owned(),
            TodoStatus::InProgress => "in_progress".to_owned(),
            TodoStatus::Completed => "completed".to_owned(),
            TodoStatus::Cancelled => "cancelled".to_owned(),
        },
        evidence: match &item.evidence {
            Some(e) => Some(e.clone()),
            None => None,
        },
    }
}

/// The tasks, if they could be loaded.
pub fn build_tasks(store: Option<&TodoStore>) -> (out: Vec<DashboardTask>)
    ensures
        out@.len() == (match store {
            Some(s) => s.items@.len(),
            None => 0,
        }),
        forall|i: int| 0 <= i < out@.len() ==> shows(#[trigger] out@[i], store->0.items@[i]),
{
    let mut out: Vec<DashboardTask> = Vec::new();
    match store {
        Some(s) => {
            let mut i: usize = 0;
            while i < s.items.len()
                invariant
                    i <= s.items@.len(),
                    out@.len() == i,
                    forall|j: int| 0 <= j < i ==> shows(#[trigger] out@[j], s.items@[j]),
                decreases s.items@.len() - i,
            {
                out.push(dashboard_task(&s.items[i]));
                i = i + 1;
            }
        },
        None => {},
    }
    out
}

/// The task that is being worked on.
pub open spec fn current_task(store: Option<TodoStore>) -> Option<Seq<char>> {
    match store {
        Some(s) => opt_text(s.current_id),
        None => None,
    }
}

/// The task that is being worked on, if the tasks could be loaded.
pub fn build_current_todo_id(store: Option<TodoStore>) -> (r: Option<String>)
    ensures
        opt_text(r) == current_task(store),
{
    match store {
        Some(s) => s.current_id,
        None => None,
    }
}

/// The task that is being worked on in a session, of those that could be loaded.
pub fn build_current_todo_id_for(stores: &crate::keyed::Keyed<TodoStore>, seed: &str) -> (r: Option<
    String,
>)
    ensures
        opt_text(r) == current_task(
            if stores@.contains_key(seed@) {
                Some(stores@[seed@])
            } else {
                None
            },
        ),
{
    match stores.get(seed) {
        Some(s) => match &s.current_id {
            Some(id) => Some(id.clone()),
            None => None,
        },
        None => None,
    }
}

} // verus!
