//! The images of a session, what is asked about one of them, and what the answer says.

use vstd::prelude::*;

use crate::exec::handler::pair_texts;
use crate::format::{byte_len, byte_length, chars_fitting, dec, decimal, decimal_big, fitting};
use crate::image_query::backend::{backend_for, select_backend, AnyBackend, MultimodalBackend};
use crate::image_query::image_utils::{detect_mime, mime_of_text};
use crate::json::{member, str_at, text_eq, u64_at, Json};
use crate::json_view::{json_view, JsonView};
use crate::keyed::Keyed;
use crate::outside::{lossy, lossy_text};
use crate::refusal::{plain_refusal, refuse, Refusal, RefusalView};
use crate::text::{chars_of, slice_of, string_of};

verus! {

/// An image of a session.
#[derive(Debug, PartialEq, Eq)]
pub struct ImageEntry {
    pub mime_type: String,
    pub data: String,
}

/// An image: its kind and its text.
pub open spec fn entries(v: Seq<ImageEntry>) -> Seq<(Seq<char>, Seq<char>)> {
    Seq::new(v.len(), |i: int| (v[i].mime_type@, v[i].data@))
}

/// The images of all sessions.
pub struct ImageRegistry {
    pub table: Keyed<Vec<ImageEntry>>,
}

/// The images of a session, in the order in which they came.
pub open spec fn images_of(reg: ImageRegistry, seed: Seq<char>) -> Seq<(Seq<char>, Seq<char>)> {
    if reg.table@.contains_key(seed) {
        entries(reg.table@[seed]@)
    } else {
        Seq::empty()
    }
}

impl ImageRegistry {
    /// No images.
    pub fn new() -> (r: Self)
        ensures
            forall|s: Seq<char>| (#[trigger] images_of(r, s)).len() == 0,
    {
        ImageRegistry { table: Keyed::new() }
    }
}

/// Adds an image to a session.
pub fn store_image(reg: &mut ImageRegistry, seed: &str, mime_type: &str, data: &str)
    ensures
        images_of(*final(reg), seed@) == images_of(*old(reg), seed@).push((mime_type@, data@)),
        forall|s: Seq<char>|
            s != seed@ ==> #[trigger] images_of(*final(reg), s) == images_of(*old(reg), s),
{
    let mut list: Vec<ImageEntry> = match reg.table.remove(seed) {
        Some(v) => v,
        None => Vec::new(),
    };
    let ghost before = list@;
    proof {
        assert(entries(before) =~= images_of(*old(reg), seed@));
    }
    list.push(ImageEntry { mime_type: mime_type.to_owned(), data: data.to_owned() });
    proof {
        assert(entries(list@) =~= entries(before).push((mime_type@, data@)));
    }
    reg.table.insert(seed.to_owned(), list);
}

/// An image of a session, by its place; it stays there.
pub fn peek_image(reg: &ImageRegistry, seed: &str, index: usize) -> (r: Option<(String, String)>)
    ensures
        match r {
            Some(p) => index < images_of(*reg, seed@).len() && images_of(*reg, seed@)[index as int]
                == (p.0@, p.1@),
            None => index >= images_of(*reg, seed@).len(),
        },
{
    match reg.table.get(seed) {
        Some(list) => {
            if index < list.len() {
                Some((list[index].mime_type.clone(), list[index].data.clone()))
            } else {
                None
            }
        },
        None => None,
    }
}

/// A list without one place.
pub open spec fn without(
    list: Seq<(Seq<char>, Seq<char>)>,
    index: int,
) -> Seq<(Seq<char>, Seq<char>)> {
    if 0 <= index < list.len() {
        list.remove(index)
    } else {
        list
    }
}

/// Takes an image out of a session.
pub fn consume_image(reg: &mut ImageRegistry, seed: &str, index: usize)
    ensures
        images_of(*final(reg), seed@) == without(images_of(*old(reg), seed@), index as int),
        forall|s: Seq<char>|
            s != seed@ ==> #[trigger] images_of(*final(reg), s) == images_of(*old(reg), s),
{
    match reg.table.remove(seed) {
        Some(v) => {
            let mut list: Vec<ImageEntry> = v;
            let ghost before = list@;
            if index < list.len() {
                let _ = list.remove(index);
                proof {
                    assert(entries(list@) =~= entries(before).remove(index as int));
                }
            }
            if list.len() > 0 {
                reg.table.insert(seed.to_owned(), list);
            } else {
                proof {
                    assert(entries(list@) =~= Seq::empty());
                }
            }
        },
        None => {},
    }
}

/// What is asked about an image.
#[derive(Debug, PartialEq, Eq)]
pub struct ImageInput {
    pub prompt: String,
    pub data: String,
    pub mime_type: String,
    /// The session and the place of an image that was uploaded.
    pub source: Option<(String, usize)>,
}

/// What is asked about an image.
#[verifier::ext_equal]
pub struct ImageInputView {
    pub prompt: Seq<char>,
    pub data: Seq<char>,
    pub mime_type: Seq<char>,
    pub source: Option<(Seq<char>, usize)>,
}

impl View for ImageInput {
    type V = ImageInputView;

    open spec fn view(&self) -> ImageInputView {
        ImageInputView {
            prompt: self.prompt@,
            data: self.data@,
            mime_type: self.mime_type@,
            source: match self.source {
                Some(p) => Some((p.0@, p.1)),
                None => None,
            },
        }
    }
}

/// A text argument, empty when there is none.
pub open spec fn text_or_empty(args: Json, key: Seq<char>) -> Seq<char> {
    match str_at(args, key) {
        Some(s) => s,
        None => Seq::empty(),
    }
}

/// An error without a code.
pub open spec fn image_error(message: Seq<char>) -> RefusalView {
    plain_refusal(""@, message, None)
}

/// What a call asks: a prompt is needed, and an image, by its place in the session or
/// given as text.
pub open spec fn image_plan(
    args: Json,
    reg: ImageRegistry,
    session: Option<Seq<char>>,
) -> Result<ImageInputView, RefusalView> {
    let prompt = text_or_empty(args, "prompt"@);
    let data = text_or_empty(args, "base64_image"@);
    if prompt.len() == 0 {
        Err(image_error("image: prompt is required"@))
    } else {
        match u64_at(args, "image_index"@) {
            Some(idx) => match session {
                None => Err(
                    image_error(
                        "image: no active session — image_index requires a running session context"@,
                    ),
                ),
                Some(seed) => if idx < images_of(reg, seed).len() {
                    let image = images_of(reg, seed)[idx as int];
                    Ok(
                        ImageInputView {
                            prompt,
                            data: image.1,
                            mime_type: image.0,
                            source: Some((seed, idx as usize)),
                        },
                    )
                } else {
                    Err(
                        image_error(
                            "image: image_index "@ + dec(idx as nat) + " not found in session '"@
                                + seed
                                + "'. Images may have been uploaded in a different turn. Try re-uploading the image."@,
                        ),
                    )
                },
            },
            None => if data.len() == 0 {
                Err(
                    image_error(
                        "image: either image_index or base64_image is required. Tip: if you see [Image #N: ...] in the conversation, use image_index=N."@,
                    ),
                )
            } else {
                Ok(ImageInputView { prompt, data, mime_type: mime_of_text(data), source: None })
            },
        }
    }
}

fn text_or_nothing(args: &Json, key: &str) -> (s: String)
    ensures
        s@ == text_or_empty(*args, key@),
{
    match args.get_str(key) {
        Some(s) => s.to_owned(),
        None => String::new(),
    }
}

/// Reads what a call asks.
pub fn plan_image(args: &Json, reg: &ImageRegistry, session: Option<&str>) -> (r: Result<
    ImageInput,
    Refusal,
>)
    ensures
        match image_plan(
            *args,
            *reg,
            match session {
                Some(s) => Some(s@),
                None => None,
            },
        ) {
            Ok(v) => r matches Ok(c) && c@ == v,
            Err(e) => r matches Err(f) && f@ == e,
        },
{
    let prompt: String = text_or_nothing(args, "prompt");
    if prompt.as_str().is_empty() {
        return Err(refuse("", "image: prompt is required".to_owned(), None));
    }
    match args.get_u64("image_index") {
        Some(idx) => {
            let seed: &str = match session {
                Some(s) => s,
                None => {
                    return Err(
                        refuse(
                            "",
                            "image: no active session — image_index requires a running session context".to_owned(),
                            None,
                        ),
                    );
                },
            };
            if idx <= usize::MAX as u64 {
                match peek_image(reg, seed, idx as usize) {
                    Some(p) => {
                        return Ok(
                            ImageInput {
                                prompt,
                                data: p.1,
                                mime_type: p.0,
                                source: Some((seed.to_owned(), idx as usize)),
                            },
                        );
                    },
                    None => {},
                }
            } else {
                proof {
                    lemma_images_fit(*reg, seed@);
                }
            }
            let mut message: String = "image: image_index ".to_owned();
            message.append(decimal(idx).as_str());
            message.append(" not found in session '");
            message.append(seed);
            message.append(
                "'. Images may have been uploaded in a different turn. Try re-uploading the image.",
            );
            Err(refuse("", message, None))
        },
        None => {
            let data: String = text_or_nothing(args, "base64_image");
            if data.as_str().is_empty() {
                return Err(
                    refuse(
                        "",
                        "image: either image_index or base64_image is required. Tip: if you see [Image #N: ...] in the conversation, use image_index=N.".to_owned(),
                        None,
                    ),
                );
            }
            let mime_type: String = detect_mime(data.as_str());
            Ok(ImageInput { prompt, data, mime_type, source: None })
        },
    }
}

proof fn lemma_images_fit(reg: ImageRegistry, seed: Seq<char>)
    ensures
        images_of(reg, seed).len() <= usize::MAX,
{
    if reg.table@.contains_key(seed) {
        let v = reg.table@[seed];
        assert(v@.len() == v.len());
    }
}

/// How the vision model is reached.
#[derive(Debug, PartialEq, Eq)]
pub struct ImageConfig {
    pub enabled: bool,
    pub provider_type: String,
    pub api_key: String,
    pub base_url: String,
    pub model: String,
    pub max_tokens: u32,
    /// The key and the address of the main model, used where none of its own is given.
    pub main_api_key: String,
    pub main_base_url: String,
}

/// A request that can be sent.
#[derive(Debug, PartialEq, Eq)]
pub struct ImageRequest {
    pub backend: AnyBackend,
    pub url: String,
    pub headers: Vec<(String, String)>,
    pub body: Json,
    pub timeout_secs: u64,
}

/// A request that can be sent.
#[verifier::ext_equal]
pub struct ImageRequestView {
    pub backend: AnyBackend,
    pub url: Seq<char>,
    pub headers: Seq<(Seq<char>, Seq<char>)>,
    pub body: JsonView,
    pub timeout_secs: u64,
}

impl View for ImageRequest {
    type V = ImageRequestView;

    open spec fn view(&self) -> ImageRequestView {
        ImageRequestView {
            backend: self.backend,
            url: self.url@,
            headers: pair_texts(self.headers@),
            body: json_view(self.body),
            timeout_secs: self.timeout_secs,
        }
    }
}

/// The address of a provider.
pub open spec fn address(c: ImageConfig) -> Seq<char> {
    if c.base_url@.len() > 0 {
        c.base_url@
    } else if c.provider_type@ == "mimo"@ || c.provider_type@ == ""@ {
        "https://api.xiaomimimo.com/v1"@
    } else if c.provider_type@ == "ollama"@ {
        "http://localhost:11434"@
    } else if c.provider_type@ == "lmstudio"@ {
        "http://localhost:1234"@
    } else {
        c.main_base_url@
    }
}

/// A text without the slashes at its end.
pub open spec fn without_slashes(s: Seq<char>) -> Seq<char>
    decreases s.len(),
{
    if s.len() > 0 && s.last() == '/' {
        without_slashes(s.drop_last())
    } else {
        s
    }
}

/// Takes the slashes off the end of a text.
pub fn drop_slashes(text: &str) -> (out: String)
    ensures
        out@ == without_slashes(text@),
{
    let s: Vec<char> = chars_of(text);
    let mut k: usize = s.len();
    proof {
        assert(s@.take(k as int) =~= s@);
    }
    while k > 0 && s[k - 1] == '/'
        invariant
            k <= s@.len(),
            s@ == text@,
            without_slashes(text@) == without_slashes(s@.take(k as int)),
        decreases k,
    {
        proof {
            assert(s@.take(k as int).drop_last() =~= s@.take(k - 1));
            assert(s@.take(k as int).last() == s@[k - 1]);
        }
        k = k - 1;
    }
    proof {
        if k > 0 {
            assert(s@.take(k as int).last() == s@[k - 1]);
        }
        assert(s@.subrange(0, k as int) =~= s@.take(k as int));
    }
    string_of(slice_of(s.as_slice(), 0, k).as_slice())
}

/// How long the text of an image may be: four characters for three bytes of what the
/// backend takes.
pub open spec fn text_limit(backend: AnyBackend) -> nat {
    ((if backend.image_limit() * 4 > usize::MAX {
        usize::MAX as int
    } else {
        backend.image_limit() * 4
    }) / 3) as nat
}

/// The request for what is asked, or why there is none: vision must be set up, and the
/// image must not be too large.
pub open spec fn image_request(
    input: ImageInputView,
    c: ImageConfig,
    timeout: Option<u64>,
) -> Result<ImageRequestView, RefusalView> {
    let backend = backend_for(c.provider_type@);
    let key = if c.api_key@.len() == 0 {
        c.main_api_key@
    } else {
        c.api_key@
    };
    let secs = match timeout {
        Some(n) => n,
        None => backend.timeout(),
    };
    if !c.enabled {
        Err(
            image_error(
                "image: multimodal is not enabled. Please configure a multimodal provider in Settings > Multimodal."@,
            ),
        )
    } else if byte_len(input.data) > text_limit(backend) {
        Err(
            image_error(
                "image: base64 data too large ("@ + dec(byte_len(input.data)) + " bytes, max ~"@
                    + dec(text_limit(backend)) + " bytes for this backend)"@,
            ),
        )
    } else {
        Ok(
            ImageRequestView {
                backend,
                url: without_slashes(address(c)) + backend.path(),
                headers: backend.headers(key),
                body: backend.body(
                    c.model@,
                    input.mime_type,
                    input.data,
                    input.prompt,
                    c.max_tokens,
                ),
                timeout_secs: if secs < 30 {
                    30
                } else {
                    secs
                },
            },
        )
    }
}

/// Builds the request for what is asked.
pub fn request_image(input: &ImageInput, c: &ImageConfig, timeout: Option<u64>) -> (r: Result<
    ImageRequest,
    Refusal,
>)
    ensures
        match image_request(input@, *c, timeout) {
            Ok(v) => r matches Ok(q) && q@ == v,
            Err(e) => r matches Err(f) && f@ == e,
        },
{
    if !c.enabled {
        return Err(
            refuse(
                "",
                "image: multimodal is not enabled. Please configure a multimodal provider in Settings > Multimodal.".to_owned(),
                None,
            ),
        );
    }
    let backend: AnyBackend = select_backend(c.provider_type.as_str());
    let size: u128 = byte_length(chars_of(input.data.as_str()).as_slice());
    let limit: u128 = (match backend.max_image_bytes().checked_mul(4) {
        Some(n) => n,
        None => usize::MAX,
    } / 3) as u128;
    if size > limit {
        let mut message: String = "image: base64 data too large (".to_owned();
        message.append(decimal_big(size).as_str());
        message.append(" bytes, max ~");
        message.append(decimal_big(limit).as_str());
        message.append(" bytes for this backend)");
        return Err(refuse("", message, None));
    }
    let key: &str = if c.api_key.as_str().is_empty() {
        c.main_api_key.as_str()
    } else {
        c.api_key.as_str()
    };
    let kind: &str = c.provider_type.as_str();
    let base: &str = if !c.base_url.as_str().is_empty() {
        c.base_url.as_str()
    } else if text_eq(kind, "mimo") || text_eq(kind, "") {
        "https://api.xiaomimimo.com/v1"
    } else if text_eq(kind, "ollama") {
        "http://localhost:11434"
    } else if text_eq(kind, "lmstudio") {
        "http://localhost:1234"
    } else {
        c.main_base_url.as_str()
    };
    let mut url: String = drop_slashes(base);
    url.append(backend.endpoint_path());
    let secs: u64 = match timeout {
        Some(n) => n,
        None => backend.default_timeout_secs(),
    };
    Ok(
        ImageRequest {
            backend,
            url,
            headers: backend.auth_headers(key),
            body: backend.build_request(
                c.model.as_str(),
                input.mime_type.as_str(),
                input.data.as_str(),
                input.prompt.as_str(),
                c.max_tokens,
            ),
            timeout_secs: if secs < 30 {
                30
            } else {
                secs
            },
        },
    )
}

/// The message of an error that an answer carries.
pub open spec fn error_message(answer: Json) -> Option<Seq<char>> {
    match member(answer, "error"@) {
        Some(e) => str_at(e, "message"@),
        None => None,
    }
}

fn find_error_message<'a>(json: &'a Json) -> (r: Option<&'a str>)
    ensures
        match r {
            Some(s) => error_message(*json) == Some(s@),
            None => error_message(*json) is None,
        },
{
    match json.get("error") {
        Some(e) => e.get_str("message"),
        None => None,
    }
}

/// The start of a text, at most 500 bytes of it.
pub open spec fn short_form(s: Seq<char>) -> Seq<char> {
    s.take(fitting(s, 500) as int)
}

fn shorten(text: &str) -> (out: String)
    ensures
        out@ == short_form(text@),
{
    let s: Vec<char> = chars_of(text);
    let k: usize = chars_fitting(s.as_slice(), 500);
    let head: Vec<char> = slice_of(s.as_slice(), 0, k);
    proof {
        assert(head@ =~= text@.take(k as int));
    }
    string_of(head.as_slice())
}

/// What the counts of an answer add to its text.
pub open spec fn usage_note(usage: Option<(u64, u64)>) -> Seq<char> {
    match usage {
        Some(u) => "\n\n[Token usage: "@ + dec(u.0 as nat) + " prompt + "@ + dec(u.1 as nat)
            + " completion = "@ + dec((u.0 + u.1) as nat) + " total]"@,
        None => Seq::empty(),
    }
}

/// What an answer says: an error for a status that is no success, for a body that is
/// no JSON and for an answer without content; else the content and its token counts.
pub open spec fn image_reply(
    backend: AnyBackend,
    status: u16,
    body: Seq<u8>,
    parsed: Result<Json, Seq<char>>,
) -> Result<Seq<char>, Seq<char>> {
    if !(200 <= status < 300) {
        let shown = match parsed {
            Ok(j) => match error_message(j) {
                Some(m) => m,
                None => short_form(lossy(body)),
            },
            Err(_) => short_form(lossy(body)),
        };
        Err("image: API returned HTTP "@ + dec(status as nat) + ": "@ + shown)
    } else {
        match parsed {
            Err(e) => Err(
                "image: failed to parse JSON response: "@ + e + ". Body: "@ + short_form(
                    lossy(body),
                ),
            ),
            Ok(j) => match backend.content(j) {
                None => Err(
                    "image: "@ + match error_message(j) {
                        Some(m) => m,
                        None => "[No content in response]"@,
                    },
                ),
                Some(text) => Ok(text + usage_note(backend.usage(j))),
            },
        }
    }
}

/// A parse result with its error as text.
pub open spec fn parsed_view(p: Result<Json, String>) -> Result<Json, Seq<char>> {
    match p {
        Ok(j) => Ok(j),
        Err(e) => Err(e@),
    }
}

/// Reads an answer. An image of the session is taken out once it has been answered;
/// when anything fails it stays, so that the call can be repeated.
pub fn read_reply(
    reg: &mut ImageRegistry,
    input: &ImageInput,
    backend: &AnyBackend,
    status: u16,
    body: &[u8],
    parsed: Result<Json, String>,
) -> (r: Result<String, Refusal>)
    ensures
        match image_reply(*backend, status, body@, parsed_view(parsed)) {
            Ok(text) => r matches Ok(s) && s@ == text,
            Err(e) => r matches Err(f) && f@ == image_error(e),
        },
        forall|s: Seq<char>| #[trigger]
            images_of(*final(reg), s) == match input@.source {
                Some(p) => if r is Ok && p.0 == s {
                    without(images_of(*old(reg), s), p.1 as int)
                } else {
                    images_of(*old(reg), s)
                },
                None => images_of(*old(reg), s),
            },
{
    if !(200 <= status && status < 300) {
        let mut message: String = "image: API returned HTTP ".to_owned();
        message.append(decimal(status as u64).as_str());
        message.append(": ");
        let told: Option<&str> = match &parsed {
            Ok(j) => find_error_message(j),
            Err(_) => None,
        };
        match told {
            Some(m) => message.append(m),
            None => message.append(shorten(lossy_text(body).as_str()).as_str()),
        }
        return Err(refuse("", message, None));
    }
    let json: Json = match parsed {
        Ok(j) => j,
        Err(e) => {
            let mut message: String = "image: failed to parse JSON response: ".to_owned();
            message.append(e.as_str());
            message.append(". Body: ");
            message.append(shorten(lossy_text(body).as_str()).as_str());
            return Err(refuse("", message, None));
        },
    };
    let mut text: String = match backend.extract_content(&json) {
        Some(c) => c.to_owned(),
        None => {
            let mut message: String = "image: ".to_owned();
            match find_error_message(&json) {
                Some(m) => message.append(m),
                None => message.append("[No content in response]"),
            }
            return Err(refuse("", message, None));
        },
    };
    match &input.source {
        Some(p) => consume_image(reg, p.0.as_str(), p.1),
        None => {},
    }
    let ghost content = text@;
    match backend.extract_usage(&json) {
        Some(u) => {
            text.append("\n\n[Token usage: ");
            text.append(decimal(u.0).as_str());
            text.append(" prompt + ");
            text.append(decimal(u.1).as_str());
            text.append(" completion = ");
            text.append(decimal_big(u.0 as u128 + u.1 as u128).as_str());
            text.append(" total]");
            proof {
                assert(text@ =~= content + usage_note(Some(u)));
            }
        },
        None => {
            proof {
                assert(text@ =~= content + usage_note(None));
            }
        },
    }
    Ok(text)
}

} // verus!
