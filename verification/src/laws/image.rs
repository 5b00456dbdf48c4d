//! What holds of every question about an image.

use vstd::prelude::*;

use crate::base64::digit;
use crate::image_query::backend::{
    backend_for, chat_content, data_uri, last_message, AnyBackend, MultimodalBackend,
};
use crate::image_query::image_utils::{loose_digits, mime_of, mime_of_text, uri_mime};
use crate::image_query::query::{
    address, image_plan, image_reply, image_request, images_of, short_form, text_limit, without,
    without_slashes, ImageConfig, ImageInputView, ImageRegistry,
};
use crate::format::byte_len;
use crate::json::{arr_at, member, str_at, u64_at, Json};
use crate::json_view::JsonView;
use crate::refusal::RefusalView;
use crate::search::{at, find_from, lemma_find_from};

verus! {

/// The kind of an image is told by its first bytes: those of JPEG, GIF, WebP, BMP and TIFF; any
/// other is taken for a PNG.
pub proof fn first_bytes_tell_the_kind(b: Seq<u8>)
    ensures
        b.len() >= 4 && b.take(3) == seq![0xffu8, 0xd8u8, 0xffu8] ==> mime_of(b) == "image/jpeg"@,
        b.len() >= 4 && b.take(3) == seq![0x47u8, 0x49u8, 0x46u8] ==> mime_of(b) == "image/gif"@,
        b.len() >= 4 && b.take(4) == seq![0x89u8, 0x50u8, 0x4eu8, 0x47u8] ==> mime_of(b)
            == "image/png"@,
        b.len() >= 12 && b.take(4) == seq![0x52u8, 0x49u8, 0x46u8, 0x46u8] && b.subrange(8, 12)
            == seq![0x57u8, 0x45u8, 0x42u8, 0x50u8] ==> mime_of(b) == "image/webp"@,
        b.len() >= 4 && b.take(2) == seq![0x42u8, 0x4du8] ==> mime_of(b) == "image/bmp"@,
        b.len() >= 4 && b.take(4) == seq![0x49u8, 0x49u8, 0x2au8, 0x00u8] ==> mime_of(b)
            == "image/tiff"@,
        b.len() >= 4 && b.take(4) == seq![0x4du8, 0x4du8, 0x00u8, 0x2au8] ==> mime_of(b)
            == "image/tiff"@,
        b.len() < 4 ==> mime_of(b) == "image/png"@,
{
    if b.len() >= 4 {
        assert(b.take(3)[0] == b[0] && b.take(3)[1] == b[1] && b.take(3)[2] == b[2]);
        assert(b.take(4)[0] == b[0] && b.take(4)[1] == b[1] && b.take(4)[2] == b[2] && b.take(4)[3]
            == b[3]);
        assert(b.take(2)[0] == b[0] && b.take(2)[1] == b[1]);
    }
    if b.len() >= 12 {
        let w = b.subrange(8, 12);
        assert(w[0] == b[8] && w[1] == b[9] && w[2] == b[10] && w[3] == b[11]);
    }
}

/// A data URI states the kind of its image between `data:` and the next semicolon.
pub proof fn data_uri_states_the_kind(kind: Seq<char>, rest: Seq<char>)
    requires
        !kind.contains(';'),
    ensures
        uri_mime("data:"@ + ("image/"@ + kind) + ";"@ + rest) == Some("image/"@ + kind),
        mime_of_text("data:"@ + ("image/"@ + kind) + ";"@ + rest) == "image/"@ + kind,
{
    reveal_strlit("data:");
    reveal_strlit("image/");
    reveal_strlit(";");
    let mime = "image/"@ + kind;
    let data = "data:"@ + mime + ";"@ + rest;
    let behind = data.skip(5);
    assert(behind =~= mime + ";"@ + rest);
    assert(data.take(5) =~= "data:"@);
    lemma_find_from(behind, ";"@, 0);
    let n = mime.len() as int;
    assert(behind.subrange(n, n + 1) =~= ";"@);
    assert(at(behind, ";"@, n));
    let end = find_from(behind, ";"@, 0);
    assert(end == n) by {
        assert(end != -1);
        assert(behind.subrange(end, end + 1)[0] == behind[end]);
        assert(behind[end] == ';');
        if end < n {
            assert(behind[end] == mime[end]);
            if end >= 6 {
                assert(kind[end - 6] == ';');
            } else {
                assert("image/"@[end] == ';');
            }
        }
    }
    assert(behind.take(end) =~= mime);
    assert(mime.take(6) =~= "image/"@);
}

/// What is asked about an image: a prompt is needed, and an image: that of the session at the
/// place that is named, with the kind it came with, or one that is given as text.
pub proof fn image_is_named_or_given(
    args: Json,
    reg: ImageRegistry,
    session: Option<Seq<char>>,
    prompt: Seq<char>,
)
    requires
        str_at(args, "prompt"@) == Some(prompt),
    ensures
        prompt.len() == 0 ==> image_plan(args, reg, session) is Err,
        prompt.len() > 0 ==> {
            let plan = image_plan(args, reg, session);
            &&& u64_at(args, "image_index"@) matches Some(i) ==> {
                &&& session is None ==> plan is Err
                &&& session matches Some(seed) ==> {
                    &&& plan is Ok <==> i < images_of(reg, seed).len()
                    &&& plan matches Ok(v) ==> v.prompt == prompt && v.mime_type == images_of(
                        reg,
                        seed,
                    )[i as int].0 && v.data == images_of(reg, seed)[i as int].1 && v.source == Some(
                        (seed, i as usize),
                    )
                }
            }
            &&& u64_at(args, "image_index"@) is None ==> {
                &&& str_at(args, "base64_image"@) is None ==> plan is Err
                &&& str_at(args, "base64_image"@) matches Some(d) ==> {
                    &&& d.len() == 0 ==> plan is Err
                    &&& d.len() > 0 ==> plan == Ok::<ImageInputView, RefusalView>(
                        ImageInputView { prompt, data: d, mime_type: mime_of_text(d), source: None },
                    )
                }
            }
        },
{
}

/// An image that is taken out leaves the others in order.
pub proof fn other_images_stay(list: Seq<(Seq<char>, Seq<char>)>, index: int)
    ensures
        0 <= index < list.len() ==> without(list, index) == list.take(index) + list.skip(index + 1),
        index < 0 || index >= list.len() ==> without(list, index) == list,
{
    if 0 <= index < list.len() {
        assert(without(list, index) =~= list.take(index) + list.skip(index + 1));
    }
}

/// The backend of a provider, and where it is reached: at the address that is set, else at its
/// own.
pub proof fn providers_have_their_backends(c: ImageConfig)
    ensures
        ({
            let p = c.provider_type@;
            &&& p == "ollama"@ ==> backend_for(p) is Ollama
            &&& p == "lmstudio"@ ==> backend_for(p) is LmStudio
            &&& p == "openai_compat"@ ==> backend_for(p) is OpenAiCompat
            &&& p != "ollama"@ && p != "lmstudio"@ && p != "openai_compat"@ ==> backend_for(p) is MiMo
            &&& c.base_url@.len() > 0 ==> address(c) == c.base_url@
            &&& c.base_url@.len() == 0 ==> {
                &&& p == "mimo"@ ==> address(c) == "https://api.xiaomimimo.com/v1"@
                &&& p == "ollama"@ ==> address(c) == "http://localhost:11434"@
                &&& p == "lmstudio"@ ==> address(c) == "http://localhost:1234"@
                &&& p == "openai_compat"@ ==> address(c) == c.main_base_url@
            }
        }),
{
    reveal_strlit("ollama");
    reveal_strlit("lmstudio");
    reveal_strlit("openai_compat");
    reveal_strlit("mimo");
    reveal_strlit("");
    assert("ollama"@.len() == 6 && "lmstudio"@.len() == 8 && "openai_compat"@.len() == 13);
    assert("mimo"@.len() == 4);
}

/// The path, the headers, the limits and the answers of each backend are its own.
pub proof fn backends_speak_their_own_protocols(key: Seq<char>, b: AnyBackend)
    ensures
        b is MiMo ==> b.path() == "/chat/completions"@ && b.headers(key) == seq![("api-key"@, key)]
            && b.timeout() == 120,
        b is OpenAiCompat ==> b.path() == "/chat/completions"@ && b.timeout() == 300,
        b is Ollama ==> b.path() == "/api/chat"@ && b.headers(key).len() == 0 && b.timeout() == 300,
        b is LmStudio ==> b.path() == "/api/v1/chat"@ && b.timeout() == 300,
        (b is OpenAiCompat || b is LmStudio) && key.len() > 0 ==> b.headers(key) == seq![
            ("Authorization"@, "Bearer "@ + key),
        ],
        (b is OpenAiCompat || b is LmStudio) && key.len() == 0 ==> b.headers(key).len() == 0,
        b.image_limit() == 50 * 1024 * 1024,
{
}

/// Every backend is sent the model, the prompt and the image itself.
pub proof fn request_carries_prompt_and_image(
    b: AnyBackend,
    model: Seq<char>,
    mime: Seq<char>,
    data: Seq<char>,
    prompt: Seq<char>,
    max_tokens: u32,
)
    ensures
        b.body(model, mime, data, prompt, max_tokens) matches JsonView::Obj(m) && m.len() > 1 && m[0]
            == ("model"@, JsonView::Str(model)),
        b is Ollama ==> (b.body(model, mime, data, prompt, max_tokens) matches JsonView::Obj(m)
            && m[1].0 == "messages"@ && (m[1].1 matches JsonView::Arr(a) && a.len() == 1 && (
        a[0] matches JsonView::Obj(f) && f.contains(("content"@, JsonView::Str(prompt)))
            && f.contains(("images"@, JsonView::Arr(seq![JsonView::Str(data)])))))),
        b is MiMo ==> (b.body(model, mime, data, prompt, max_tokens) matches JsonView::Obj(m)
            && m.contains(("max_completion_tokens"@, JsonView::Uint(max_tokens as u64)))),
        b is OpenAiCompat ==> (b.body(model, mime, data, prompt, max_tokens) matches JsonView::Obj(
            m,
        ) && m.contains(("max_tokens"@, JsonView::Uint(max_tokens as u64)))),
        data_uri(mime, data) == "data:"@ + mime + ";base64,"@ + data,
{
    let m = b.body(model, mime, data, prompt, max_tokens)->Obj_0;
    if b is Ollama {
        let f = m[1].1->Arr_0[0]->Obj_0;
        assert(f[1] == ("content"@, JsonView::Str(prompt)));
        assert(f[2] == ("images"@, JsonView::Arr(seq![JsonView::Str(data)])));
    } else if b is MiMo {
        assert(m[2] == ("max_completion_tokens"@, JsonView::Uint(max_tokens as u64)));
    } else if b is OpenAiCompat {
        assert(m[2] == ("max_tokens"@, JsonView::Uint(max_tokens as u64)));
    }
}

/// A question is sent where vision is on and the image is not too large: to the provider's
/// address, with its own key or else the main one, and with half a minute at least.
pub proof fn question_is_sent_to_its_provider(
    input: ImageInputView,
    c: ImageConfig,
    timeout: Option<u64>,
)
    ensures
        ({
            let b = backend_for(c.provider_type@);
            let r = image_request(input, c, timeout);
            &&& r is Ok <==> c.enabled && byte_len(input.data) <= text_limit(b)
            &&& r matches Ok(q) ==> {
                &&& q.backend == b
                &&& q.url == without_slashes(address(c)) + b.path()
                &&& c.api_key@.len() > 0 ==> q.headers == b.headers(c.api_key@)
                &&& c.api_key@.len() == 0 ==> q.headers == b.headers(c.main_api_key@)
                &&& q.body == b.body(
                    c.model@,
                    input.mime_type,
                    input.data,
                    input.prompt,
                    c.max_tokens,
                )
                &&& timeout matches Some(n) ==> q.timeout_secs == (if n >= 30 {
                    n
                } else {
                    30
                })
                &&& timeout is None ==> q.timeout_secs == b.timeout()
            }
        }),
{
}

/// An answer counts where its status is a success, it can be read and it holds a text: then
/// the text comes first; else it is an error.
pub proof fn only_a_successful_answer_counts(
    b: AnyBackend,
    status: u16,
    body: Seq<u8>,
    parsed: Result<Json, Seq<char>>,
)
    ensures
        ({
            let r = image_reply(b, status, body, parsed);
            &&& r is Ok <==> 200 <= status < 300 && (parsed matches Ok(j) && b.content(j) is Some)
            &&& r matches Ok(text) ==> (b.usage(parsed->Ok_0) is None ==> text == b.content(
                parsed->Ok_0,
            )->0)
            &&& r matches Ok(text) ==> b.content(parsed->Ok_0)->0.is_prefix_of(text)
        }),
{
    if let Ok(j) = parsed {
        if let Some(t) = b.content(j) {
            assert(t + Seq::<char>::empty() =~= t);
            if let Ok(text) = image_reply(b, status, body, parsed) {
                assert(text.take(t.len() as int) =~= t);
            }
        }
    }
}

/// Where the text of an answer stands: in the first choice's message, in the message, or in the
/// last item that is a message.
pub proof fn text_of_an_answer_is_found(answer: Json, items: Seq<Json>, item: Json, m: Json)
    ensures
        arr_at(answer, "choices"@) == Some(items) && items.len() > 0 && member(items[0], "message"@)
            == Some(m) ==> chat_content(answer) == str_at(m, "content"@),
        str_at(item, "type"@) == Some("message"@) ==> last_message(items.push(item)) == str_at(
            item,
            "content"@,
        ),
        str_at(item, "type"@) != Some("message"@) ==> last_message(items.push(item))
            == last_message(items),
        forall|b: AnyBackend| b is Ollama && member(answer, "message"@) == Some(m) ==> #[trigger]
            b.content(answer) == str_at(m, "content"@),
        forall|b: AnyBackend| b is MiMo || b is OpenAiCompat ==> #[trigger] b.content(answer)
            == chat_content(answer),
        forall|b: AnyBackend| b is LmStudio && arr_at(answer, "output"@) == Some(items)
            ==> #[trigger] b.content(answer) == last_message(items),
{
    assert(items.push(item).drop_last() =~= items);
}

/// The text of an image may be a third longer than the image itself, which every backend takes
/// up to 50 megabytes.
pub proof fn image_texts_are_limited(b: AnyBackend)
    requires
        usize::MAX >= 4 * 52428800,
    ensures
        3 * text_limit(b) <= 4 * 52428800 < 3 * text_limit(b) + 3,
{
}

/// The error of an answer is told by its own message, else by the start of its body.
pub proof fn errors_are_told_by_their_message(
    b: AnyBackend,
    status: u16,
    body: Seq<u8>,
    answer: Json,
    message: Seq<char>,
)
    requires
        !(200 <= status < 300),
    ensures
        (member(answer, "error"@) matches Some(e) && str_at(e, "message"@) == Some(message))
            ==> image_reply(b, status, body, Ok(answer)) == Err::<Seq<char>, Seq<char>>(
            "image: API returned HTTP "@ + crate::format::dec(status as nat) + ": "@ + message,
        ),
        member(answer, "error"@) is None ==> image_reply(b, status, body, Ok(answer)) == Err::<
            Seq<char>,
            Seq<char>,
        >(
            "image: API returned HTTP "@ + crate::format::dec(status as nat) + ": "@ + short_form(
                crate::outside::lossy(body),
            ),
        ),
{
}

/// The token counts of an answer stand where its backend puts them.
pub proof fn token_counts_are_found(answer: Json, u: Json, p: u64, c: u64)
    ensures
        forall|b: AnyBackend|
            (b is MiMo || b is OpenAiCompat) && member(answer, "usage"@) == Some(u) && u64_at(
                u,
                "prompt_tokens"@,
            ) == Some(p) && u64_at(u, "completion_tokens"@) == Some(c) ==> #[trigger] b.usage(answer)
                == Some((p, c)),
        forall|b: AnyBackend|
            b is Ollama && u64_at(answer, "prompt_eval_count"@) == Some(p) && u64_at(
                answer,
                "eval_count"@,
            ) == Some(c) ==> #[trigger] b.usage(answer) == Some((p, c)),
        forall|b: AnyBackend|
            b is LmStudio && member(answer, "stats"@) == Some(u) && u64_at(u, "input_tokens"@)
                == Some(p) && u64_at(u, "total_output_tokens"@) == Some(c) ==> #[trigger] b.usage(
                answer,
            ) == Some((p, c)),
{
}


/// A text that is no data URI, or one of another kind, states no kind of image.
pub proof fn other_uris_state_no_kind(data: Seq<char>, kind: Seq<char>, rest: Seq<char>)
    ensures
        !"data:"@.is_prefix_of(data) ==> uri_mime(data) is None,
        !kind.contains(';') && !"image/"@.is_prefix_of(kind) ==> uri_mime(
            "data:"@ + kind + ";"@ + rest,
        ) is None,
{
    reveal_strlit("data:");
    reveal_strlit(";");
    if !kind.contains(';') && !"image/"@.is_prefix_of(kind) {
        let all = "data:"@ + kind + ";"@ + rest;
        let behind = all.skip(5);
        assert(behind =~= kind + ";"@ + rest);
        lemma_find_from(behind, ";"@, 0);
        let n = kind.len() as int;
        assert(behind.subrange(n, n + 1) =~= ";"@);
        assert(at(behind, ";"@, n));
        let end = find_from(behind, ";"@, 0);
        assert(end == n) by {
            assert(end != -1);
            assert(behind.subrange(end, end + 1)[0] == behind[end]);
            if end < n {
                assert(kind[end] == ';');
            }
        }
        assert(behind.take(end) =~= kind);
    }
}

/// What is no digit of Base64 is skipped where an image is looked at, up to the first equals
/// sign.
pub proof fn other_characters_are_skipped(c: char, s: Seq<char>)
    ensures
        c == '=' ==> loose_digits(seq![c] + s).len() == 0,
        c != '=' && digit(c) is None ==> loose_digits(seq![c] + s) == loose_digits(s),
        c != '=' ==> (digit(c) matches Some(d) ==> loose_digits(seq![c] + s) == seq![d]
            + loose_digits(s)),
{
    assert((seq![c] + s).skip(1) =~= s);
    assert((seq![c] + s)[0] == c);
}

/// In a chat the prompt and the image stand side by side in one message of the user; LM Studio
/// gets both as its input.
pub proof fn chat_holds_prompt_and_image(
    b: AnyBackend,
    model: Seq<char>,
    mime: Seq<char>,
    data: Seq<char>,
    prompt: Seq<char>,
    max_tokens: u32,
)
    ensures
        b is MiMo || b is OpenAiCompat ==> (b.body(
            model,
            mime,
            data,
            prompt,
            max_tokens,
        ) matches JsonView::Obj(m) && m[1].0 == "messages"@ && (m[1].1 matches JsonView::Arr(a)
            && a.len() == 1 && (a[0] matches JsonView::Obj(f) && f.len() == 2 && f[0] == (
            "role"@,
            JsonView::Str("user"@),
        ) && f[1].0 == "content"@ && (f[1].1 matches JsonView::Arr(parts) && parts.len() == 2
            && parts[0] == JsonView::Obj(
            seq![
                ("type"@, JsonView::Str("image_url"@)),
                (
                    "image_url"@,
                    JsonView::Obj(
                        seq![("url"@, JsonView::Str("data:"@ + mime + ";base64,"@ + data))],
                    ),
                ),
            ],
        ) && parts[1] == JsonView::Obj(
            seq![("type"@, JsonView::Str("text"@)), ("text"@, JsonView::Str(prompt))],
        ))))),
        b is LmStudio ==> (b.body(model, mime, data, prompt, max_tokens) matches JsonView::Obj(m)
            && m[1].0 == "input"@ && (m[1].1 matches JsonView::Arr(parts) && parts.len() == 2
            && parts[0] == JsonView::Obj(
            seq![("type"@, JsonView::Str("text"@)), ("content"@, JsonView::Str(prompt))],
        ) && parts[1] == JsonView::Obj(
            seq![
                ("type"@, JsonView::Str("image"@)),
                ("data_url"@, JsonView::Str("data:"@ + mime + ";base64,"@ + data)),
            ],
        ))),
{
}

} // verus!
