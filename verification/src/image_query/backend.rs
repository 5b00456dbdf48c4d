//! What a vision backend is asked for: the body of a request, where it goes, and how
//! its answer is read.

use vstd::prelude::*;

use crate::exec::handler::pair_texts;
use crate::json::{arr_at, member, str_at, text_eq, u64_at, Json};
use crate::json_view::{
    json_arr_one, json_arr_two, json_obj, json_obj_one, json_obj_two, json_str, json_view,
    no_members, pair_views, with_member, JsonView,
};

verus! {

/// A vision backend: it takes an image and a prompt and answers with text.
pub trait MultimodalBackend {
    /// The body of a request.
    spec fn body(
        &self,
        model: Seq<char>,
        mime: Seq<char>,
        data: Seq<char>,
        prompt: Seq<char>,
        max_tokens: u32,
    ) -> JsonView;

    /// The path behind the base address.
    spec fn path(&self) -> Seq<char>;

    /// The headers that carry a key.
    spec fn headers(&self, api_key: Seq<char>) -> Seq<(Seq<char>, Seq<char>)>;

    /// The text of an answer.
    spec fn content(&self, answer: Json) -> Option<Seq<char>>;

    /// The tokens of the prompt and of the answer.
    spec fn usage(&self, answer: Json) -> Option<(u64, u64)>;

    /// How large an image may be.
    spec fn image_limit(&self) -> usize;

    /// How long a request may take.
    spec fn timeout(&self) -> u64;

    /// Builds the body of a request.
    fn build_request(
        &self,
        model: &str,
        mime_type: &str,
        base64_data: &str,
        prompt: &str,
        max_tokens: u32,
    ) -> (r: Json)
        ensures
            json_view(r) == self.body(model@, mime_type@, base64_data@, prompt@, max_tokens),
    ;

    /// The path behind the base address.
    fn endpoint_path(&self) -> (r: &'static str)
        ensures
            r@ == self.path(),
    ;

    /// The headers that carry a key.
    fn auth_headers(&self, api_key: &str) -> (r: Vec<(String, String)>)
        ensures
            pair_texts(r@) == self.headers(api_key@),
    ;

    /// Reads the text out of an answer.
    fn extract_content<'a>(&self, json: &'a Json) -> (r: Option<&'a str>)
        ensures
            match r {
                Some(s) => self.content(*json) == Some(s@),
                None => self.content(*json) is None,
            },
    ;

    /// Reads the token counts out of an answer.
    fn extract_usage(&self, json: &Json) -> (r: Option<(u64, u64)>)
        ensures
            r == self.usage(*json),
    ;

    /// How large an image may be, in bytes.
    fn max_image_bytes(&self) -> (n: usize)
        ensures
            n == self.image_limit(),
    ;

    /// How long a request may take, in seconds.
    fn default_timeout_secs(&self) -> (n: u64)
        ensures
            n == self.timeout(),
    ;
}

/// How large an image may be by default.
pub const IMAGE_LIMIT: usize = 52428800;

/// An image as a data URI.
pub open spec fn data_uri(mime: Seq<char>, data: Seq<char>) -> Seq<char> {
    "data:"@ + mime + ";base64,"@ + data
}

/// Writes an image as a data URI.
pub fn data_uri_of(mime: &str, data: &str) -> (out: String)
    ensures
        out@ == data_uri(mime@, data@),
{
    let mut out: String = "data:".to_owned();
    out.append(mime);
    out.append(";base64,");
    out.append(data);
    out
}

/// The messages of a chat completion: the image first, then the prompt.
pub open spec fn chat_messages(mime: Seq<char>, data: Seq<char>, prompt: Seq<char>) -> JsonView {
    JsonView::Arr(
        seq![
            JsonView::Obj(
                seq![
                    ("role"@, JsonView::Str("user"@)),
                    (
                        "content"@,
                        JsonView::Arr(
                            seq![
                                JsonView::Obj(
                                    seq![
                                        ("type"@, JsonView::Str("image_url"@)),
                                        (
                                            "image_url"@,
                                            JsonView::Obj(
                                                seq![("url"@, JsonView::Str(data_uri(mime, data)))],
                                            ),
                                        ),
                                    ],
                                ),
                                JsonView::Obj(
                                    seq![
                                        ("type"@, JsonView::Str("text"@)),
                                        ("text"@, JsonView::Str(prompt)),
                                    ],
                                ),
                            ],
                        ),
                    ),
                ],
            ),
        ],
    )
}

/// The body of a chat completion.
pub open spec fn chat_body(
    model: Seq<char>,
    mime: Seq<char>,
    data: Seq<char>,
    prompt: Seq<char>,
    limit_key: Seq<char>,
    max_tokens: u32,
) -> JsonView {
    JsonView::Obj(
        seq![
            ("model"@, JsonView::Str(model)),
            ("messages"@, chat_messages(mime, data, prompt)),
            (limit_key, JsonView::Uint(max_tokens as u64)),
        ],
    )
}

fn build_chat(
    model: &str,
    mime: &str,
    data: &str,
    prompt: &str,
    limit_key: &str,
    max_tokens: u32,
) -> (r: Json)
    ensures
        json_view(r) == chat_body(model@, mime@, data@, prompt@, limit_key@, max_tokens),
{
    let url: String = data_uri_of(mime, data);
    let image: Json = json_obj_two(
        "type",
        json_str("image_url"),
        "image_url",
        json_obj_one("url", json_str(url.as_str())),
    );
    let text: Json = json_obj_two("type", json_str("text"), "text", json_str(prompt));
    let message: Json = json_obj_two(
        "role",
        json_str("user"),
        "content",
        json_arr_two(image, text),
    );
    let a: Vec<(String, Json)> = with_member(no_members(), "model", json_str(model));
    let b: Vec<(String, Json)> = with_member(a, "messages", json_arr_one(message));
    let c: Vec<(String, Json)> = with_member(b, limit_key, Json::Uint(max_tokens as u64));
    proof {
        let body = chat_body(model@, mime@, data@, prompt@, limit_key@, max_tokens);
        assert(pair_views(c@) =~= body->Obj_0);
    }
    json_obj(c)
}

/// The text of the first choice of a chat completion.
pub open spec fn chat_content(answer: Json) -> Option<Seq<char>> {
    match arr_at(answer, "choices"@) {
        Some(items) => if items.len() > 0 {
            match member(items[0], "message"@) {
                Some(m) => str_at(m, "content"@),
                None => None,
            }
        } else {
            None
        },
        None => None,
    }
}

fn read_chat_content<'a>(json: &'a Json) -> (r: Option<&'a str>)
    ensures
        match r {
            Some(s) => chat_content(*json) == Some(s@),
            None => chat_content(*json) is None,
        },
{
    match json.get_array("choices") {
        Some(items) => {
            if items.len() > 0 {
                match items[0].get("message") {
                    Some(m) => m.get_str("content"),
                    None => None,
                }
            } else {
                None
            }
        },
        None => None,
    }
}

/// Two counts of a value, when both are there.
pub open spec fn counts_at(v: Json, first: Seq<char>, second: Seq<char>) -> Option<(u64, u64)> {
    match (u64_at(v, first), u64_at(v, second)) {
        (Some(a), Some(b)) => Some((a, b)),
        _ => None,
    }
}

fn read_counts(v: &Json, first: &str, second: &str) -> (r: Option<(u64, u64)>)
    ensures
        r == counts_at(*v, first@, second@),
{
    match v.get_u64(first) {
        Some(a) => match v.get_u64(second) {
            Some(b) => Some((a, b)),
            None => None,
        },
        None => None,
    }
}

/// The token counts of a chat completion.
pub open spec fn chat_usage(answer: Json) -> Option<(u64, u64)> {
    match member(answer, "usage"@) {
        Some(u) => counts_at(u, "prompt_tokens"@, "completion_tokens"@),
        None => None,
    }
}

fn read_chat_usage(json: &Json) -> (r: Option<(u64, u64)>)
    ensures
        r == chat_usage(*json),
{
    match json.get("usage") {
        Some(u) => read_counts(u, "prompt_tokens", "completion_tokens"),
        None => None,
    }
}

/// A bearer header, unless there is no key.
pub open spec fn bearer(api_key: Seq<char>) -> Seq<(Seq<char>, Seq<char>)> {
    if api_key.len() == 0 {
        Seq::empty()
    } else {
        seq![("Authorization"@, "Bearer "@ + api_key)]
    }
}

fn bearer_headers(api_key: &str) -> (r: Vec<(String, String)>)
    ensures
        pair_texts(r@) == bearer(api_key@),
{
    let mut r: Vec<(String, String)> = Vec::new();
    if !api_key.is_empty() {
        let mut value: String = "Bearer ".to_owned();
        value.append(api_key);
        r.push(("Authorization".to_owned(), value));
    }
    proof {
        assert(pair_texts(r@) =~= bearer(api_key@));
    }
    r
}

/// Xiaomi's vision model: chat completions, with the key in a header of its own.
#[derive(Debug, Clone, Copy, Default, PartialEq, Eq, Structural)]
pub struct MiMoBackend;

/// A server that speaks the chat completions protocol.
#[derive(Debug, Clone, Copy, Default, PartialEq, Eq, Structural)]
pub struct OpenAiCompatBackend;

/// Ollama's own protocol: the image stands beside the prompt, without its kind.
#[derive(Debug, Clone, Copy, Default, PartialEq, Eq, Structural)]
pub struct OllamaBackend;

/// LM Studio's own protocol.
#[derive(Debug, Clone, Copy, Default, PartialEq, Eq, Structural)]
pub struct LmStudioBackend;

impl MultimodalBackend for MiMoBackend {
    open spec fn body(
        &self,
        model: Seq<char>,
        mime: Seq<char>,
        data: Seq<char>,
        prompt: Seq<char>,
        max_tokens: u32,
    ) -> JsonView {
        chat_body(model, mime, data, prompt, "max_completion_tokens"@, max_tokens)
    }

    open spec fn path(&self) -> Seq<char> {
        "/chat/completions"@
    }

    open spec fn headers(&self, api_key: Seq<char>) -> Seq<(Seq<char>, Seq<char>)> {
        seq![("api-key"@, api_key)]
    }

    open spec fn content(&self, answer: Json) -> Option<Seq<char>> {
        chat_content(answer)
    }

    open spec fn usage(&self, answer: Json) -> Option<(u64, u64)> {
        chat_usage(answer)
    }

    open spec fn image_limit(&self) -> usize {
        IMAGE_LIMIT
    }

    open spec fn timeout(&self) -> u64 {
        120
    }

    fn build_request(
        &self,
        model: &str,
        mime_type: &str,
        base64_data: &str,
        prompt: &str,
        max_tokens: u32,
    ) -> (r: Json) {
        build_chat(model, mime_type, base64_data, prompt, "max_completion_tokens", max_tokens)
    }

    fn endpoint_path(&self) -> (r: &'static str) {
        "/chat/completions"
    }

    fn auth_headers(&self, api_key: &str) -> (r: Vec<(String, String)>) {
        let mut r: Vec<(String, String)> = Vec::new();
        r.push(("api-key".to_owned(), api_key.to_owned()));
        proof {
            assert(pair_texts(r@) =~= self.headers(api_key@));
        }
        r
    }

    fn extract_content<'a>(&self, json: &'a Json) -> (r: Option<&'a str>) {
        read_chat_content(json)
    }

    fn extract_usage(&self, json: &Json) -> (r: Option<(u64, u64)>) {
        read_chat_usage(json)
    }

    fn max_image_bytes(&self) -> (n: usize) {
        IMAGE_LIMIT
    }

    fn default_timeout_secs(&self) -> (n: u64) {
        120
    }
}

impl MultimodalBackend for OpenAiCompatBackend {
    open spec fn body(
        &self,
        model: Seq<char>,
        mime: Seq<char>,
        data: Seq<char>,
        prompt: Seq<char>,
        max_tokens: u32,
    ) -> JsonView {
        chat_body(model, mime, data, prompt, "max_tokens"@, max_tokens)
    }

    open spec fn path(&self) -> Seq<char> {
        "/chat/completions"@
    }

    open spec fn headers(&self, api_key: Seq<char>) -> Seq<(Seq<char>, Seq<char>)> {
        bearer(api_key)
    }

    open spec fn content(&self, answer: Json) -> Option<Seq<char>> {
        chat_content(answer)
    }

    open spec fn usage(&self, answer: Json) -> Option<(u64, u64)> {
        chat_usage(answer)
    }

    open spec fn image_limit(&self) -> usize {
        IMAGE_LIMIT
    }

    open spec fn timeout(&self) -> u64 {
        300
    }

    fn build_request(
        &self,
        model: &str,
        mime_type: &str,
        base64_data: &str,
        prompt: &str,
        max_tokens: u32,
    ) -> (r: Json) {
        build_chat(model, mime_type, base64_data, prompt, "max_tokens", max_tokens)
    }

    fn endpoint_path(&self) -> (r: &'static str) {
        "/chat/completions"
    }

    fn auth_headers(&self, api_key: &str) -> (r: Vec<(String, String)>) {
        bearer_headers(api_key)
    }

    fn extract_content<'a>(&self, json: &'a Json) -> (r: Option<&'a str>) {
        read_chat_content(json)
    }

    fn extract_usage(&self, json: &Json) -> (r: Option<(u64, u64)>) {
        read_chat_usage(json)
    }

    fn max_image_bytes(&self) -> (n: usize) {
        IMAGE_LIMIT
    }

    fn default_timeout_secs(&self) -> (n: u64) {
        300
    }
}

impl MultimodalBackend for OllamaBackend {
    open spec fn body(
        &self,
        model: Seq<char>,
        mime: Seq<char>,
        data: Seq<char>,
        prompt: Seq<char>,
        max_tokens: u32,
    ) -> JsonView {
        JsonView::Obj(
            seq![
                ("model"@, JsonView::Str(model)),
                (
                    "messages"@,
                    JsonView::Arr(
                        seq![
                            JsonView::Obj(
                                seq![
                                    ("role"@, JsonView::Str("user"@)),
                                    ("content"@, JsonView::Str(prompt)),
                                    ("images"@, JsonView::Arr(seq![JsonView::Str(data)])),
                                ],
                            ),
                        ],
                    ),
                ),
                ("stream"@, JsonView::Bool(false)),
            ],
        )
    }

    open spec fn path(&self) -> Seq<char> {
        "/api/chat"@
    }

    open spec fn headers(&self, api_key: Seq<char>) -> Seq<(Seq<char>, Seq<char>)> {
        Seq::empty()
    }

    open spec fn content(&self, answer: Json) -> Option<Seq<char>> {
        match member(answer, "message"@) {
            Some(m) => str_at(m, "content"@),
            None => None,
        }
    }

    open spec fn usage(&self, answer: Json) -> Option<(u64, u64)> {
        counts_at(answer, "prompt_eval_count"@, "eval_count"@)
    }

    open spec fn image_limit(&self) -> usize {
        IMAGE_LIMIT
    }

    open spec fn timeout(&self) -> u64 {
        300
    }

    fn build_request(
        &self,
        model: &str,
        mime_type: &str,
        base64_data: &str,
        prompt: &str,
        max_tokens: u32,
    ) -> (r: Json) {
        let m1: Vec<(String, Json)> = with_member(no_members(), "role", json_str("user"));
        let m2: Vec<(String, Json)> = with_member(m1, "content", json_str(prompt));
        let m3: Vec<(String, Json)> = with_member(
            m2,
            "images",
            json_arr_one(json_str(base64_data)),
        );
        let message: Json = json_obj(m3);
        proof {
            assert(json_view(message)->Obj_0 =~= seq![
                ("role"@, JsonView::Str("user"@)),
                ("content"@, JsonView::Str(prompt@)),
                ("images"@, JsonView::Arr(seq![JsonView::Str(base64_data@)])),
            ]);
        }
        let a: Vec<(String, Json)> = with_member(no_members(), "model", json_str(model));
        let b: Vec<(String, Json)> = with_member(a, "messages", json_arr_one(message));
        let c: Vec<(String, Json)> = with_member(b, "stream", Json::Bool(false));
        proof {
            let body = self.body(model@, mime_type@, base64_data@, prompt@, max_tokens);
            assert(pair_views(c@) =~= body->Obj_0);
        }
        json_obj(c)
    }

    fn endpoint_path(&self) -> (r: &'static str) {
        "/api/chat"
    }

    fn auth_headers(&self, api_key: &str) -> (r: Vec<(String, String)>) {
        let r: Vec<(String, String)> = Vec::new();
        proof {
            assert(pair_texts(r@) =~= self.headers(api_key@));
        }
        r
    }

    fn extract_content<'a>(&self, json: &'a Json) -> (r: Option<&'a str>) {
        match json.get("message") {
            Some(m) => m.get_str("content"),
            None => None,
        }
    }

    fn extract_usage(&self, json: &Json) -> (r: Option<(u64, u64)>) {
        read_counts(json, "prompt_eval_count", "eval_count")
    }

    fn max_image_bytes(&self) -> (n: usize) {
        IMAGE_LIMIT
    }

    fn default_timeout_secs(&self) -> (n: u64) {
        300
    }
}

/// The text of the last item that is a message.
pub open spec fn last_message(items: Seq<Json>) -> Option<Seq<char>>
    decreases items.len(),
{
    if items.len() == 0 {
        None
    } else if str_at(items.last(), "type"@) == Some("message"@) {
        str_at(items.last(), "content"@)
    } else {
        last_message(items.drop_last())
    }
}

fn find_last_message<'a>(items: &'a [Json]) -> (r: Option<&'a str>)
    ensures
        match r {
            Some(s) => last_message(items@) == Some(s@),
            None => last_message(items@) is None,
        },
{
    let mut i: usize = items.len();
    proof {
        assert(items@.take(i as int) =~= items@);
    }
    while i > 0
        invariant
            i <= items@.len(),
            last_message(items@) == last_message(items@.take(i as int)),
        decreases i,
    {
        proof {
            assert(items@.take(i as int).drop_last() =~= items@.take(i - 1));
            assert(items@.take(i as int).last() == items@[i - 1]);
        }
        match items[i - 1].get_str("type") {
            Some(t) => {
                if text_eq(t, "message") {
                    return items[i - 1].get_str("content");
                }
            },
            None => {},
        }
        i = i - 1;
    }
    None
}

impl MultimodalBackend for LmStudioBackend {
    open spec fn body(
        &self,
        model: Seq<char>,
        mime: Seq<char>,
        data: Seq<char>,
        prompt: Seq<char>,
        max_tokens: u32,
    ) -> JsonView {
        JsonView::Obj(
            seq![
                ("model"@, JsonView::Str(model)),
                (
                    "input"@,
                    JsonView::Arr(
                        seq![
                            JsonView::Obj(
                                seq![
                                    ("type"@, JsonView::Str("text"@)),
                                    ("content"@, JsonView::Str(prompt)),
                                ],
                            ),
                            JsonView::Obj(
                                seq![
                                    ("type"@, JsonView::Str("image"@)),
                                    ("data_url"@, JsonView::Str(data_uri(mime, data))),
                                ],
                            ),
                        ],
                    ),
                ),
                ("context_length"@, JsonView::Uint(4096)),
                ("temperature"@, JsonView::Float("0.0"@)),
                (
                    "reasoning"@,
                    JsonView::Obj(seq![("type"@, JsonView::Str("disabled"@))]),
                ),
            ],
        )
    }

    open spec fn path(&self) -> Seq<char> {
        "/api/v1/chat"@
    }

    open spec fn headers(&self, api_key: Seq<char>) -> Seq<(Seq<char>, Seq<char>)> {
        bearer(api_key)
    }

    open spec fn content(&self, answer: Json) -> Option<Seq<char>> {
        match arr_at(answer, "output"@) {
            Some(items) => last_message(items),
            None => None,
        }
    }

    open spec fn usage(&self, answer: Json) -> Option<(u64, u64)> {
        match member(answer, "stats"@) {
            Some(s) => counts_at(s, "input_tokens"@, "total_output_tokens"@),
            None => None,
        }
    }

    open spec fn image_limit(&self) -> usize {
        IMAGE_LIMIT
    }

    open spec fn timeout(&self) -> u64 {
        300
    }

    fn build_request(
        &self,
        model: &str,
        mime_type: &str,
        base64_data: &str,
        prompt: &str,
        max_tokens: u32,
    ) -> (r: Json) {
        let url: String = data_uri_of(mime_type, base64_data);
        let text: Json = json_obj_two("type", json_str("text"), "content", json_str(prompt));
        let image: Json = json_obj_two(
            "type",
            json_str("image"),
            "data_url",
            json_str(url.as_str()),
        );
        let a: Vec<(String, Json)> = with_member(no_members(), "model", json_str(model));
        let b: Vec<(String, Json)> = with_member(a, "input", json_arr_two(text, image));
        let c: Vec<(String, Json)> = with_member(b, "context_length", Json::Uint(4096));
        let d: Vec<(String, Json)> = with_member(c, "temperature", Json::Float("0.0".to_owned()));
        let e: Vec<(String, Json)> = with_member(
            d,
            "reasoning",
            json_obj_one("type", json_str("disabled")),
        );
        proof {
            let body = self.body(model@, mime_type@, base64_data@, prompt@, max_tokens);
            assert(pair_views(e@) =~= body->Obj_0);
        }
        json_obj(e)
    }

    fn endpoint_path(&self) -> (r: &'static str) {
        "/api/v1/chat"
    }

    fn auth_headers(&self, api_key: &str) -> (r: Vec<(String, String)>) {
        bearer_headers(api_key)
    }

    fn extract_content<'a>(&self, json: &'a Json) -> (r: Option<&'a str>) {
        match json.get_array("output") {
            Some(items) => find_last_message(items.as_slice()),
            None => None,
        }
    }

    fn extract_usage(&self, json: &Json) -> (r: Option<(u64, u64)>) {
        match json.get("stats") {
            Some(s) => read_counts(s, "input_tokens", "total_output_tokens"),
            None => None,
        }
    }

    fn max_image_bytes(&self) -> (n: usize) {
        IMAGE_LIMIT
    }

    fn default_timeout_secs(&self) -> (n: u64) {
        300
    }
}

/// One of the backends.
#[derive(Debug, Clone, Copy, PartialEq, Eq, Structural)]
pub enum AnyBackend {
    MiMo(MiMoBackend),
    OpenAiCompat(OpenAiCompatBackend),
    Ollama(OllamaBackend),
    LmStudio(LmStudioBackend),
}

impl MultimodalBackend for AnyBackend {
    open spec fn body(
        &self,
        model: Seq<char>,
        mime: Seq<char>,
        data: Seq<char>,
        prompt: Seq<char>,
        max_tokens: u32,
    ) -> JsonView {
        match self {
            AnyBackend::MiMo(b) => b.body(model, mime, data, prompt, max_tokens),
            AnyBackend::OpenAiCompat(b) => b.body(model, mime, data, prompt, max_tokens),
            AnyBackend::Ollama(b) => b.body(model, mime, data, prompt, max_tokens),
            AnyBackend::LmStudio(b) => b.body(model, mime, data, prompt, max_tokens),
        }
    }

    open spec fn path(&self) -> Seq<char> {
        match self {
            AnyBackend::MiMo(b) => b.path(),
            AnyBackend::OpenAiCompat(b) => b.path(),
            AnyBackend::Ollama(b) => b.path(),
            AnyBackend::LmStudio(b) => b.path(),
        }
    }

    open spec fn headers(&self, api_key: Seq<char>) -> Seq<(Seq<char>, Seq<char>)> {
        match self {
            AnyBackend::MiMo(b) => b.headers(api_key),
            AnyBackend::OpenAiCompat(b) => b.headers(api_key),
            AnyBackend::Ollama(b) => b.headers(api_key),
            AnyBackend::LmStudio(b) => b.headers(api_key),
        }
    }

    open spec fn content(&self, answer: Json) -> Option<Seq<char>> {
        match self {
            AnyBackend::MiMo(b) => b.content(answer),
            AnyBackend::OpenAiCompat(b) => b.content(answer),
            AnyBackend::Ollama(b) => b.content(answer),
            AnyBackend::LmStudio(b) => b.content(answer),
        }
    }

    open spec fn usage(&self, answer: Json) -> Option<(u64, u64)> {
        match self {
            AnyBackend::MiMo(b) => b.usage(answer),
            AnyBackend::OpenAiCompat(b) => b.usage(answer),
            AnyBackend::Ollama(b) => b.usage(answer),
            AnyBackend::LmStudio(b) => b.usage(answer),
        }
    }

    open spec fn image_limit(&self) -> usize {
        IMAGE_LIMIT
    }

    open spec fn timeout(&self) -> u64 {
        match self {
            AnyBackend::MiMo(b) => b.timeout(),
            AnyBackend::OpenAiCompat(b) => b.timeout(),
            AnyBackend::Ollama(b) => b.timeout(),
            AnyBackend::LmStudio(b) => b.timeout(),
        }
    }

    fn build_request(
        &self,
        model: &str,
        mime_type: &str,
        base64_data: &str,
        prompt: &str,
        max_tokens: u32,
    ) -> (r: Json) {
        match self {
            AnyBackend::MiMo(b) => b.build_request(model, mime_type, base64_data, prompt, max_tokens),
            AnyBackend::OpenAiCompat(b) => b.build_request(
                model,
                mime_type,
                base64_data,
                prompt,
                max_tokens,
            ),
            AnyBackend::Ollama(b) => b.build_request(
                model,
                mime_type,
                base64_data,
                prompt,
                max_tokens,
            ),
            AnyBackend::LmStudio(b) => b.build_request(
                model,
                mime_type,
                base64_data,
                prompt,
                max_tokens,
            ),
        }
    }

    fn endpoint_path(&self) -> (r: &'static str) {
        match self {
            AnyBackend::MiMo(b) => b.endpoint_path(),
            AnyBackend::OpenAiCompat(b) => b.endpoint_path(),
            AnyBackend::Ollama(b) => b.endpoint_path(),
            AnyBackend::LmStudio(b) => b.endpoint_path(),
        }
    }

    fn auth_headers(&self, api_key: &str) -> (r: Vec<(String, String)>) {
        match self {
            AnyBackend::MiMo(b) => b.auth_headers(api_key),
            AnyBackend::OpenAiCompat(b) => b.auth_headers(api_key),
            AnyBackend::Ollama(b) => b.auth_headers(api_key),
            AnyBackend::LmStudio(b) => b.auth_headers(api_key),
        }
    }

    fn extract_content<'a>(&self, json: &'a Json) -> (r: Option<&'a str>) {
        match self {
            AnyBackend::MiMo(b) => b.extract_content(json),
            AnyBackend::OpenAiCompat(b) => b.extract_content(json),
            AnyBackend::Ollama(b) => b.extract_content(json),
            AnyBackend::LmStudio(b) => b.extract_content(json),
        }
    }

    fn extract_usage(&self, json: &Json) -> (r: Option<(u64, u64)>) {
        match self {
            AnyBackend::MiMo(b) => b.extract_usage(json),
            AnyBackend::OpenAiCompat(b) => b.extract_usage(json),
            AnyBackend::Ollama(b) => b.extract_usage(json),
            AnyBackend::LmStudio(b) => b.extract_usage(json),
        }
    }

    fn max_image_bytes(&self) -> (n: usize) {
        IMAGE_LIMIT
    }

    fn default_timeout_secs(&self) -> (n: u64) {
        match self {
            AnyBackend::MiMo(b) => b.default_timeout_secs(),
            AnyBackend::OpenAiCompat(b) => b.default_timeout_secs(),
            AnyBackend::Ollama(b) => b.default_timeout_secs(),
            AnyBackend::LmStudio(b) => b.default_timeout_secs(),
        }
    }
}

/// The backend of a kind of provider.
pub open spec fn backend_for(provider: Seq<char>) -> AnyBackend {
    if provider == "ollama"@ {
        AnyBackend::Ollama(OllamaBackend)
    } else if provider == "lmstudio"@ {
        AnyBackend::LmStudio(LmStudioBackend)
    } else if provider == "openai_compat"@ {
        AnyBackend::OpenAiCompat(OpenAiCompatBackend)
    } else {
        AnyBackend::MiMo(MiMoBackend)
    }
}

/// The backend of a kind of provider.
pub fn select_backend(provider_type: &str) -> (r: AnyBackend)
    ensures
        r == backend_for(provider_type@),
{
    if text_eq(provider_type, "ollama") {
        AnyBackend::Ollama(OllamaBackend)
    } else if text_eq(provider_type, "lmstudio") {
        AnyBackend::LmStudio(LmStudioBackend)
    } else if text_eq(provider_type, "openai_compat") {
        AnyBackend::OpenAiCompat(OpenAiCompatBackend)
    } else {
        AnyBackend::MiMo(MiMoBackend)
    }
}

} // verus!
