//! The decisions behind the interface's commands: what a memory must look like
//! to be saved, how search results are put together and ordered, which
//! memories are suggested for the window in front, and the recording flag.
use vstd::prelude::*;
use crate::errors::AppError;
use crate::ranking::{Scored, appears_in, lemma_sorted_output_is_rearrangement, sort_by_score_desc, sorted_desc, stable_sorted_desc};
use crate::embeddings::truncated;
use crate::text::{
    contains, contains_seq, decimal, decimal_string, is_blank, is_blank_str, starts_with,
};

verus! {

/// The longest content, in bytes of UTF-8, a memory may have.
pub const MAX_CONTENT_BYTES: usize = 10000;

/// The longest recording, in seconds, a memory may come from.
pub const MAX_RECORDING_SECONDS: i32 = 60;

/// How many suggestions the window in front gets at most.
pub const SUGGESTION_LIMIT: usize = 5;

/// The order key of similarity 0.7: a visual match must score above it.
pub const VISUAL_MATCH_MIN_KEY: u32 = 0xBF33_3333;

/// The order key of similarity 0.75: a text match must score above it.
pub const TEXT_MATCH_MIN_KEY: u32 = 0xBF40_0000;

/// The prefix with which the native capture reports a failure.
pub const CAPTURE_ERROR_PREFIX: &'static str = "ERROR:";

/// The head of the query that fetches the memories of several rows.
pub const BULK_QUERY_HEAD: &'static str =
    "SELECT rowid, id, content, screenshot_path, duration_sec, context_url, context_note, created_at \n         FROM memories \n         WHERE rowid IN (";

/// The tail of the query that fetches the memories of several rows.
pub const BULK_QUERY_TAIL: &'static str = ") AND is_deleted = 0";

/// A saved memory as the interface shows it.
pub struct Memory {
    pub id: String,
    pub content: String,
    pub screenshot_path: Option<String>,
    pub duration_sec: Option<i32>,
    pub context_url: Option<String>,
    pub context_note: Option<String>,
    pub created_at: String,
}

/// A memory found by a search, with the order key of its similarity.
pub struct SearchResult {
    pub memory: Memory,
    pub similarity_key: u32,
}

impl Scored for SearchResult {
    open spec fn score_of(&self) -> u32 {
        self.similarity_key
    }

    fn score(&self) -> (r: u32) {
        self.similarity_key
    }
}

/// Whether a voice recording is under way, as the command layer sees it.
pub struct RecordingState {
    pub is_recording: bool,
    /// When the recording started, in nanoseconds on the monotonic clock.
    pub start_time: Option<u64>,
}

// ---- saving a memory ----

/// Why a memory is refused, in the order the checks are made; `None` when it
/// is accepted.
pub open spec fn memory_input_error(content: &str, duration_sec: Option<i32>) -> Option<Seq<char>> {
    if is_blank(content@) {
        Some("Memory content cannot be empty"@)
    } else if content.len() > MAX_CONTENT_BYTES {
        Some("Memory content is too long (max 10,000 characters)"@)
    } else {
        match duration_sec {
            Some(d) => if d > MAX_RECORDING_SECONDS {
                Some("Recording duration exceeds 60 seconds"@)
            } else if d < 0 {
                Some("Invalid recording duration"@)
            } else {
                None
            },
            None => None,
        }
    }
}

/// Checks a memory before it is saved: its content must hold more than white
/// space and at most 10,000 bytes, and a recording duration, when given, must
/// lie between 0 and the 60-second cap.
pub fn validate_memory_input(content: &str, duration_sec: Option<i32>) -> (r: Result<(), String>)
    ensures
        match r {
            Ok(()) => memory_input_error(content, duration_sec) is None,
            Err(e) => memory_input_error(content, duration_sec) == Some(e@),
        },
{
    if is_blank_str(content) {
        return Err("Memory content cannot be empty".to_owned());
    }
    if content.len() > MAX_CONTENT_BYTES {
        return Err("Memory content is too long (max 10,000 characters)".to_owned());
    }
    if let Some(duration) = duration_sec {
        if duration > MAX_RECORDING_SECONDS {
            return Err("Recording duration exceeds 60 seconds".to_owned());
        }
        if duration < 0 {
            return Err("Invalid recording duration".to_owned());
        }
    }
    Ok(())
}

/// The message for a failed insert of a memory, from the database's own
/// message: a clash of identifiers, a busy or failing database, or anything
/// else with the database's words.
pub fn insert_error_message(db_message: &str) -> (m: String)
    ensures
        m@ == if contains_seq(db_message@, "UNIQUE"@) {
            "Memory with this ID already exists"@
        } else if contains_seq(db_message@, "database"@) || contains_seq(db_message@, "locked"@) {
            "Database error. Please try again."@
        } else {
            "Failed to save memory: "@ + db_message@
        },
{
    if contains(db_message, "UNIQUE") {
        "Memory with this ID already exists".to_owned()
    } else if contains(db_message, "database") || contains(db_message, "locked") {
        "Database error. Please try again.".to_owned()
    } else {
        let mut m = "Failed to save memory: ".to_owned();
        m.append(db_message);
        m
    }
}

/// The message for a failed embedding of a memory's content: the model not
/// being loaded yet, or anything else with the embedder's words.
pub fn embedding_error_message(embedder_message: &str) -> (m: String)
    ensures
        m@ == if contains_seq(embedder_message@, "not initialized"@) {
            "Embedding model not loaded. Please restart the app."@
        } else {
            "Failed to generate embedding: "@ + embedder_message@
        },
{
    if contains(embedder_message, "not initialized") {
        "Embedding model not loaded. Please restart the app.".to_owned()
    } else {
        let mut m = "Failed to generate embedding: ".to_owned();
        m.append(embedder_message);
        m
    }
}

/// The message for a database connection that could not be opened.
pub fn connection_error_message(db_message: &str) -> (m: String)
    ensures
        m@ == "Database connection failed: "@ + db_message@ + ". Please try again."@,
{
    let mut m = "Database connection failed: ".to_owned();
    m.append(db_message);
    m.append(". Please try again.");
    m
}

/// What `base64::engine::general_purpose::STANDARD.decode(text)` yields: the
/// decoded bytes, or `None` where the text is not valid standard base64.
pub uninterp spec fn base64_standard_decode(text: Seq<char>) -> Option<Seq<u8>>;

/// Decodes standard, padded base64 with the `base64` crate's `Engine::decode`.
/// Trusted: the result is the named `base64_standard_decode` of the text,
/// which depends on the text alone.
#[verifier::external_body]
fn decode_base64(text: &str) -> (r: Option<Vec<u8>>)
    ensures
        match r {
            Some(bytes) => base64_standard_decode(text@) == Some(bytes@),
            None => base64_standard_decode(text@) is None,
        },
{
    base64::Engine::decode(&base64::engine::general_purpose::STANDARD, text).ok()
}

/// A screenshot ready to be written: its bytes and its file name.
pub struct ScreenshotFile {
    pub bytes: Vec<u8>,
    pub filename: String,
}

/// The screenshot of a memory, decoded from base64, with the file name it is
/// stored under (the memory's id with `.jpg`); `None` when there is no
/// screenshot or it does not decode.
pub fn decode_screenshot(screenshot: &Option<String>, id: &str) -> (r: Option<ScreenshotFile>)
    ensures
        match screenshot {
            None => r is None,
            Some(text) => match base64_standard_decode(text@) {
                None => r is None,
                Some(bytes) => r matches Some(f) && f.bytes@ == bytes && f.filename@ == id@
                    + ".jpg"@,
            },
        },
{
    match screenshot {
        None => None,
        Some(text) => match decode_base64(text.as_str()) {
            None => None,
            Some(bytes) => {
                let mut filename = id.to_owned();
                filename.append(".jpg");
                Some(ScreenshotFile { bytes, filename })
            },
        },
    }
}

// ---- searching ----

/// The score a search gave to `rowid`: that of its last match, as a map built
/// from the matches in order keeps.
pub open spec fn score_for(matches: Seq<(i64, u32)>, rowid: i64) -> Option<u32>
    decreases matches.len(),
{
    if matches.len() == 0 {
        None
    } else if matches.last().0 == rowid {
        Some(matches.last().1)
    } else {
        score_for(matches.drop_last(), rowid)
    }
}

/// The fetched rows that the search matched, in the order they were fetched,
/// each with its score.
pub open spec fn joined_results(matches: Seq<(i64, u32)>, rows: Seq<(i64, Memory)>) -> Seq<SearchResult>
    decreases rows.len(),
{
    if rows.len() == 0 {
        Seq::empty()
    } else {
        let rest = joined_results(matches, rows.drop_last());
        match score_for(matches, rows.last().0) {
            Some(k) => rest.push(SearchResult { memory: rows.last().1, similarity_key: k }),
            None => rest,
        }
    }
}

/// The joined results are at most as many as the fetched rows, and each is a
/// fetched row that the search matched, with the score of its last match.
pub proof fn lemma_joined_results_from_rows(matches: Seq<(i64, u32)>, rows: Seq<(i64, Memory)>)
    ensures
        joined_results(matches, rows).len() <= rows.len(),
        forall|i: int| 0 <= i < joined_results(matches, rows).len() ==> exists|j: int|
            0 <= j < rows.len() && (#[trigger] joined_results(matches, rows)[i]).memory == rows[j].1
                && score_for(matches, rows[j].0) == Some(joined_results(matches, rows)[i].similarity_key),
    decreases rows.len(),
{
    if rows.len() > 0 {
        lemma_joined_results_from_rows(matches, rows.drop_last());
        let rest = joined_results(matches, rows.drop_last());
        let all = joined_results(matches, rows);
        assert forall|i: int| 0 <= i < all.len() implies exists|j: int|
            0 <= j < rows.len() && (#[trigger] all[i]).memory == rows[j].1
                && score_for(matches, rows[j].0) == Some(all[i].similarity_key) by {
            if i < rest.len() {
                assert(all[i] == rest[i]);
                let j = choose|j: int|
                    0 <= j < rows.drop_last().len() && (#[trigger] rest[i]).memory == rows.drop_last()[j].1
                        && score_for(matches, rows.drop_last()[j].0) == Some(rest[i].similarity_key);
                assert(rows.drop_last()[j] == rows[j]);
            } else {
                assert(all[i].memory == rows[rows.len() - 1].1);
            }
        }
    }
}

/// No matched row is lost: every fetched row whose rowid the search matched
/// is among the joined results, with the score of its last match; so there are
/// exactly as many results as matched rows.
pub proof fn lemma_joined_results_complete(matches: Seq<(i64, u32)>, rows: Seq<(i64, Memory)>)
    ensures
        forall|j: int|
            0 <= j < rows.len() && (#[trigger] score_for(matches, rows[j].0)) is Some ==> appears_in(
                joined_results(matches, rows),
                SearchResult { memory: rows[j].1, similarity_key: score_for(matches, rows[j].0)->Some_0 },
            ),
        joined_results(matches, rows).len() == matched_row_count(matches, rows),
    decreases rows.len(),
{
    if rows.len() > 0 {
        let t = rows.drop_last();
        lemma_joined_results_complete(matches, t);
        let jt = joined_results(matches, t);
        let ja = joined_results(matches, rows);
        assert forall|j: int|
            0 <= j < rows.len() && (#[trigger] score_for(matches, rows[j].0)) is Some implies appears_in(
                ja,
                SearchResult { memory: rows[j].1, similarity_key: score_for(matches, rows[j].0)->Some_0 },
            ) by {
            let x = SearchResult { memory: rows[j].1, similarity_key: score_for(matches, rows[j].0)->Some_0 };
            if j < t.len() {
                assert(t[j] == rows[j]);
                assert(score_for(matches, t[j].0) is Some);
                assert(appears_in(jt, x));
                let i = choose|i: int| 0 <= i < jt.len() && jt[i] == x;
                assert(ja[i] == jt[i]);
            } else {
                assert(rows[j] == rows.last());
                assert(ja[ja.len() - 1] == x);
            }
        }
    }
}

/// How many fetched rows the search matched.
pub open spec fn matched_row_count(matches: Seq<(i64, u32)>, rows: Seq<(i64, Memory)>) -> nat
    decreases rows.len(),
{
    if rows.len() == 0 {
        0
    } else {
        matched_row_count(matches, rows.drop_last()) + if score_for(matches, rows.last().0) is Some {
            1nat
        } else {
            0
        }
    }
}

fn lookup_score(matches: &Vec<(i64, u32)>, rowid: i64) -> (r: Option<u32>)
    ensures
        r == score_for(matches@, rowid),
{
    let mut i: usize = matches.len();
    assert(matches@.take(i as int) =~= matches@);
    while i > 0
        invariant
            i <= matches.len(),
            score_for(matches@, rowid) == score_for(matches@.take(i as int), rowid),
        decreases i,
    {
        let ghost t = matches@.take(i as int);
        assert(t.drop_last() =~= matches@.take(i - 1));
        if matches[i - 1].0 == rowid {
            return Some(matches[i - 1].1);
        }
        i = i - 1;
    }
    None
}

/// The results of a search: the fetched rows that the search matched, each
/// with its score, best first and, among equal scores, in the order fetched.
pub fn merge_search_results(matches: &Vec<(i64, u32)>, rows: Vec<(i64, Memory)>) -> (out: Vec<SearchResult>)
    ensures
        stable_sorted_desc(joined_results(matches@, rows@), out@),
        out.len() <= rows.len(),
        forall|j: int|
            0 <= j < rows.len() && (#[trigger] score_for(matches@, rows@[j].0)) is Some ==> appears_in(
                out@,
                SearchResult {
                    memory: rows@[j].1,
                    similarity_key: score_for(matches@, rows@[j].0)->Some_0,
                },
            ),
        forall|i: int| 0 <= i < out.len() ==> exists|j: int|
            0 <= j < rows.len() && (#[trigger] out@[i]).memory == rows@[j].1 && score_for(matches@, rows@[j].0)
                == Some(out@[i].similarity_key),
{
    let ghost orig = rows@;
    let mut rows = rows;
    let mut found: Vec<SearchResult> = Vec::new();
    let n = rows.len();
    let mut i: usize = 0;
    assert(orig.skip(0) =~= orig);
    assert(orig.take(0) =~= Seq::<(i64, Memory)>::empty());
    while i < n
        invariant
            n == orig.len(),
            i <= n,
            rows@ == orig.skip(i as int),
            found@ == joined_results(matches@, orig.take(i as int)),
        decreases n - i,
    {
        let (rowid, memory) = rows.remove(0);
        proof {
            assert(rows@ =~= orig.skip(i + 1));
            assert(orig.take(i + 1).drop_last() =~= orig.take(i as int));
            assert(orig.take(i + 1).last() == orig[i as int]);
        }
        match lookup_score(matches, rowid) {
            Some(k) => {
                found.push(SearchResult { memory, similarity_key: k });
            },
            None => {},
        }
        i = i + 1;
    }
    assert(orig.take(n as int) =~= orig);
    proof {
        lemma_joined_results_from_rows(matches@, orig);
        lemma_joined_results_complete(matches@, orig);
    }
    let out = sort_by_score_desc(found);
    proof {
        let joined = joined_results(matches@, orig);
        lemma_sorted_output_is_rearrangement(joined, out@);
        assert forall|j: int|
            0 <= j < orig.len() && (#[trigger] score_for(matches@, orig[j].0)) is Some implies appears_in(
                out@,
                SearchResult { memory: orig[j].1, similarity_key: score_for(matches@, orig[j].0)->Some_0 },
            ) by {
            let x = SearchResult { memory: orig[j].1, similarity_key: score_for(matches@, orig[j].0)->Some_0 };
            assert(appears_in(joined, x));
            let i = choose|i: int| 0 <= i < joined.len() && joined[i] == x;
            assert(appears_in(out@, joined[i]));
        }
        assert forall|i: int| 0 <= i < out.len() implies exists|j: int|
            0 <= j < orig.len() && (#[trigger] out@[i]).memory == orig[j].1 && score_for(matches@, orig[j].0)
                == Some(out@[i].similarity_key) by {
            assert(appears_in(joined, out@[i]));
            let k = choose|k: int| 0 <= k < joined.len() && joined[k] == out@[i];
            assert(exists|j: int|
                0 <= j < orig.len() && (#[trigger] joined[k]).memory == orig[j].1 && score_for(matches@, orig[j].0)
                    == Some(joined[k].similarity_key));
        }
    }
    out
}

/// The row identifiers of the matches, in decimal, separated by commas.
pub open spec fn joined_rowids(matches: Seq<(i64, u32)>) -> Seq<char>
    decreases matches.len(),
{
    if matches.len() == 0 {
        Seq::empty()
    } else if matches.len() == 1 {
        decimal(matches[0].0 as int)
    } else {
        joined_rowids(matches.drop_last()) + ","@ + decimal(matches.last().0 as int)
    }
}

/// The query that fetches, in one go, the memories of all matched rows that
/// are not deleted.
pub fn bulk_memory_query(matches: &Vec<(i64, u32)>) -> (q: String)
    ensures
        q@ == BULK_QUERY_HEAD@ + joined_rowids(matches@) + BULK_QUERY_TAIL@,
{
    let mut q = BULK_QUERY_HEAD.to_owned();
    let mut i: usize = 0;
    assert(matches@.take(0) =~= Seq::<(i64, u32)>::empty());
    while i < matches.len()
        invariant
            i <= matches.len(),
            q@ == BULK_QUERY_HEAD@ + joined_rowids(matches@.take(i as int)),
        decreases matches.len() - i,
    {
        proof {
            assert(matches@.take(i + 1).drop_last() =~= matches@.take(i as int));
            assert(matches@.take(i + 1).last() == matches@[i as int]);
            assert(matches@.take(i + 1)[0] == matches@[0]);
        }
        if i > 0 {
            q.append(",");
        }
        let digits = decimal_string(matches[i].0);
        q.append(digits.as_str());
        assert(q@ =~= BULK_QUERY_HEAD@ + joined_rowids(matches@.take(i + 1)));
        i = i + 1;
    }
    assert(matches@.take(matches.len() as int) =~= matches@);
    q.append(BULK_QUERY_TAIL);
    q
}

// ---- suggestions for the window in front ----

/// The text of a capture when it is not a reported failure; the report itself
/// as the error otherwise.
pub fn check_capture_result(result: String) -> (r: Result<String, String>)
    ensures
        CAPTURE_ERROR_PREFIX@.is_prefix_of(result@) ==> (r matches Err(e) && e@ == result@),
        !CAPTURE_ERROR_PREFIX@.is_prefix_of(result@) ==> (r matches Ok(t) && t@ == result@),
{
    if starts_with(result.as_str(), CAPTURE_ERROR_PREFIX) {
        Err(result)
    } else {
        Ok(result)
    }
}

/// The fields a capture reports, each present when it is a JSON string.
pub struct CaptureFields {
    pub image: Option<String>,
    pub app_name: Option<String>,
    pub ocr: Option<String>,
    pub url: Option<String>,
}

/// The view of an optional string.
pub open spec fn opt_view(o: Option<String>) -> Option<Seq<char>> {
    match o {
        Some(s) => Some(s@),
        None => None,
    }
}

/// What parsing a capture report with `serde_json::from_str::<Value>` and
/// reading its "image", "app_name", "ocr" and "url" members as strings yields:
/// the four members, each `None` where missing or not a string, or the parser's
/// error message.
pub uninterp spec fn capture_json_fields(
    text: Seq<char>,
) -> Result<(Option<Seq<char>>, Option<Seq<char>>, Option<Seq<char>>, Option<Seq<char>>), Seq<char>>;

/// Parses a capture report with `serde_json::from_str` into a
/// `serde_json::Value` and reads four string members with `Value::as_str`.
/// Trusted: the result is the named `capture_json_fields` of the text, which
/// depends on the text alone.
#[verifier::external_body]
fn parse_capture_json(text: &str) -> (r: Result<CaptureFields, String>)
    ensures
        match r {
            Ok(f) => capture_json_fields(text@) == Ok::<_, Seq<char>>(
                (opt_view(f.image), opt_view(f.app_name), opt_view(f.ocr), opt_view(f.url)),
            ),
            Err(e) => capture_json_fields(text@) == Err::<
                (Option<Seq<char>>, Option<Seq<char>>, Option<Seq<char>>, Option<Seq<char>>),
                Seq<char>,
            >(e@),
        },
{
    match serde_json::from_str::<serde_json::Value>(text) {
        Ok(v) => Ok(
            CaptureFields {
                image: v["image"].as_str().map(String::from),
                app_name: v["app_name"].as_str().map(String::from),
                ocr: v["ocr"].as_str().map(String::from),
                url: v["url"].as_str().map(String::from),
            },
        ),
        Err(e) => Err(e.to_string()),
    }
}

/// What a capture of the window in front gives the suggestions: the
/// screenshot's bytes when they decode, and the application name, recognised
/// text and URL, each empty when the capture had none.
pub struct CaptureContext {
    pub image_bytes: Option<Vec<u8>>,
    pub app_name: String,
    pub ocr_text: String,
    pub url: String,
}

/// A reported text, or the empty text when none was reported.
pub open spec fn or_empty(o: Option<Seq<char>>) -> Seq<char> {
    match o {
        Some(s) => s,
        None => Seq::empty(),
    }
}

fn string_or_empty(o: Option<String>) -> (s: String)
    ensures
        s@ == or_empty(opt_view(o)),
{
    match o {
        Some(s) => s,
        None => String::new(),
    }
}

/// Reads a capture of the window in front: a reported failure is returned as
/// the error, a report that does not parse gives the parser's message, and a
/// report without an image gives "No image in capture".
pub fn read_capture(result: String) -> (r: Result<CaptureContext, String>)
    ensures
        match r {
            Err(e) => {
                ||| CAPTURE_ERROR_PREFIX@.is_prefix_of(result@) && e@ == result@
                ||| !CAPTURE_ERROR_PREFIX@.is_prefix_of(result@) && capture_json_fields(result@)
                    == Err::<(Option<Seq<char>>, Option<Seq<char>>, Option<Seq<char>>, Option<Seq<char>>), Seq<char>>(e@)
                ||| !CAPTURE_ERROR_PREFIX@.is_prefix_of(result@) && (capture_json_fields(result@) matches Ok(f)
                    && f.0 is None) && e@ == "No image in capture"@
            },
            Ok(c) => {
                &&& !CAPTURE_ERROR_PREFIX@.is_prefix_of(result@)
                &&& capture_json_fields(result@) matches Ok(f)
                &&& f.0 matches Some(image)
                &&& match base64_standard_decode(image) {
                    Some(bytes) => c.image_bytes matches Some(b) && b@ == bytes,
                    None => c.image_bytes is None,
                }
                &&& c.app_name@ == or_empty(f.1)
                &&& c.ocr_text@ == or_empty(f.2)
                &&& c.url@ == or_empty(f.3)
            },
        },
{
    let text = match check_capture_result(result) {
        Err(e) => return Err(e),
        Ok(t) => t,
    };
    capture_context_from(parse_capture_json(text.as_str()))
}

/// The capture context from a parsed capture report: the parser's error is
/// passed on, a report without an image gives "No image in capture", and
/// otherwise the image is decoded from base64 and the other fields are taken
/// as they are, empty where missing.
pub fn capture_context_from(parsed: Result<CaptureFields, String>) -> (r: Result<CaptureContext, String>)
    ensures
        match parsed {
            Err(e) => r matches Err(e2) && e2@ == e@,
            Ok(f) => match f.image {
                None => r matches Err(e) && e@ == "No image in capture"@,
                Some(image) => {
                    &&& r matches Ok(c)
                    &&& match base64_standard_decode(image@) {
                        Some(bytes) => c.image_bytes matches Some(b) && b@ == bytes,
                        None => c.image_bytes is None,
                    }
                    &&& c.app_name@ == or_empty(opt_view(f.app_name))
                    &&& c.ocr_text@ == or_empty(opt_view(f.ocr))
                    &&& c.url@ == or_empty(opt_view(f.url))
                },
            },
        },
{
    let fields = match parsed {
        Err(e) => return Err(e),
        Ok(f) => f,
    };
    let image = match fields.image {
        None => return Err("No image in capture".to_owned()),
        Some(i) => i,
    };
    let image_bytes = decode_base64(image.as_str());
    Ok(
        CaptureContext {
            image_bytes,
            app_name: string_or_empty(fields.app_name),
            ocr_text: string_or_empty(fields.ocr),
            url: string_or_empty(fields.url),
        },
    )
}

/// The text a capture is searched by: application name, URL and recognised
/// text, separated by spaces.
pub open spec fn context_query(c: CaptureContext) -> Seq<char> {
    c.app_name@ + " "@ + c.url@ + " "@ + c.ocr_text@
}

/// The text to search by for a capture, or `None` when it is nothing but white
/// space and no text search is made.
pub fn contextual_text_query(c: &CaptureContext) -> (r: Option<String>)
    ensures
        is_blank(context_query(*c)) ==> r is None,
        !is_blank(context_query(*c)) ==> (r matches Some(q) && q@ == context_query(*c)),
{
    let mut q = c.app_name.clone();
    q.append(" ");
    q.append(c.url.as_str());
    q.append(" ");
    q.append(c.ocr_text.as_str());
    if is_blank_str(q.as_str()) {
        None
    } else {
        Some(q)
    }
}

/// The matches that score above `min_key`, in their given order.
pub open spec fn above_key(matches: Seq<(i64, u32)>, min_key: u32) -> Seq<(i64, u32)>
    decreases matches.len(),
{
    if matches.len() == 0 {
        Seq::empty()
    } else {
        let rest = above_key(matches.drop_last(), min_key);
        if matches.last().1 > min_key {
            rest.push(matches.last())
        } else {
            rest
        }
    }
}

/// The confident matches are exactly those above the threshold: every one
/// kept scores strictly above `min_key` and is one of the matches, and every
/// match that scores above `min_key` is kept; the kept ones come in the order
/// of the matches (keeping is a filter: it commutes with appending a match).
pub proof fn lemma_above_key_exact(matches: Seq<(i64, u32)>, min_key: u32)
    ensures
        above_key(matches, min_key).len() <= matches.len(),
        forall|i: int| 0 <= i < above_key(matches, min_key).len() ==> (#[trigger] above_key(matches, min_key)[i]).1 > min_key,
        forall|i: int| 0 <= i < above_key(matches, min_key).len() ==> appears_in(matches, #[trigger] above_key(matches, min_key)[i]),
        forall|j: int| 0 <= j < matches.len() && (#[trigger] matches[j]).1 > min_key ==> appears_in(above_key(matches, min_key), matches[j]),
        forall|x: (i64, u32)| #[trigger] above_key(matches.push(x), min_key) == if x.1 > min_key {
            above_key(matches, min_key).push(x)
        } else {
            above_key(matches, min_key)
        },
    decreases matches.len(),
{
    assert forall|x: (i64, u32)| #[trigger] above_key(matches.push(x), min_key) == if x.1 > min_key {
        above_key(matches, min_key).push(x)
    } else {
        above_key(matches, min_key)
    } by {
        assert(matches.push(x).drop_last() =~= matches);
    }
    if matches.len() > 0 {
        let t = matches.drop_last();
        lemma_above_key_exact(t, min_key);
        let a = above_key(matches, min_key);
        let at = above_key(t, min_key);
        assert forall|i: int| 0 <= i < a.len() implies (#[trigger] a[i]).1 > min_key && appears_in(matches, a[i]) by {
            if i < at.len() {
                assert(a[i] == at[i]);
                assert(appears_in(t, at[i]));
                let j = choose|j: int| 0 <= j < t.len() && t[j] == at[i];
                assert(matches[j] == t[j]);
            } else {
                assert(a[i] == matches.last());
                assert(matches[matches.len() - 1] == matches.last());
            }
        }
        assert forall|j: int| 0 <= j < matches.len() && (#[trigger] matches[j]).1 > min_key implies appears_in(a, matches[j]) by {
            if j < t.len() {
                assert(t[j] == matches[j]);
                assert(appears_in(at, t[j]));
                let i = choose|i: int| 0 <= i < at.len() && at[i] == t[j];
                assert(a[i] == at[i]);
            } else {
                assert(a[a.len() - 1] == matches[j]);
            }
        }
    }
}

/// Keeps the matches that score above `min_key`, in their given order.
pub fn confident_matches(matches: &Vec<(i64, u32)>, min_key: u32) -> (out: Vec<(i64, u32)>)
    ensures
        out@ == above_key(matches@, min_key),
        forall|i: int| 0 <= i < out.len() ==> (#[trigger] out@[i]).1 > min_key,
        forall|i: int| 0 <= i < out.len() ==> appears_in(matches@, #[trigger] out@[i]),
        forall|j: int| 0 <= j < matches.len() && (#[trigger] matches@[j]).1 > min_key ==> appears_in(out@, matches@[j]),
{
    proof {
        lemma_above_key_exact(matches@, min_key);
    }
    let mut out: Vec<(i64, u32)> = Vec::new();
    let mut i: usize = 0;
    assert(matches@.take(0) =~= Seq::<(i64, u32)>::empty());
    while i < matches.len()
        invariant
            i <= matches.len(),
            out@ == above_key(matches@.take(i as int), min_key),
        decreases matches.len() - i,
    {
        proof {
            assert(matches@.take(i + 1).drop_last() =~= matches@.take(i as int));
            assert(matches@.take(i + 1).last() == matches@[i as int]);
        }
        if matches[i].1 > min_key {
            out.push(matches[i]);
        }
        i = i + 1;
    }
    assert(matches@.take(matches.len() as int) =~= matches@);
    out
}

/// A run of results with each result dropped that has the same memory id as
/// the last one kept before it.
pub open spec fn dedup_by_id(s: Seq<SearchResult>) -> Seq<SearchResult>
    decreases s.len(),
{
    if s.len() == 0 {
        s
    } else {
        let d = dedup_by_id(s.drop_last());
        if d.len() > 0 && d.last().memory.id@ == s.last().memory.id@ {
            d
        } else {
            d.push(s.last())
        }
    }
}

/// The suggestions from all visual and text results: best first, a result
/// dropped when its memory is the one just before it, at most five.
pub fn finalize_suggestions(results: Vec<SearchResult>) -> (out: Vec<SearchResult>)
    ensures
        exists|sorted: Seq<SearchResult>|
            stable_sorted_desc(results@, sorted) && out@ == #[trigger] truncated(
                dedup_by_id(sorted),
                SUGGESTION_LIMIT as int,
            ),
{
    let mut sorted = sort_by_score_desc(results);
    let ghost s = sorted@;
    let n = sorted.len();
    let mut kept: Vec<SearchResult> = Vec::new();
    let mut i: usize = 0;
    assert(s.skip(0) =~= s);
    assert(s.take(0) =~= Seq::<SearchResult>::empty());
    while i < n
        invariant
            n == s.len(),
            i <= n,
            sorted@ == s.skip(i as int),
            kept@ == dedup_by_id(s.take(i as int)),
        decreases n - i,
    {
        let r = sorted.remove(0);
        proof {
            assert(sorted@ =~= s.skip(i + 1));
            assert(s.take(i + 1).drop_last() =~= s.take(i as int));
            assert(s.take(i + 1).last() == s[i as int]);
        }
        let same = kept.len() > 0 && kept[kept.len() - 1].memory.id == r.memory.id;
        if !same {
            kept.push(r);
        }
        i = i + 1;
    }
    assert(s.take(n as int) =~= s);
    let ghost d = kept@;
    if kept.len() > SUGGESTION_LIMIT {
        kept.truncate(SUGGESTION_LIMIT);
        assert(kept@ =~= d.take(SUGGESTION_LIMIT as int));
    }
    assert(kept@ == truncated(d, SUGGESTION_LIMIT as int));
    kept
}

proof fn lemma_dedup_from_source(s: Seq<SearchResult>)
    ensures
        dedup_by_id(s).len() <= s.len(),
        forall|i: int| 0 <= i < dedup_by_id(s).len() ==> exists|j: int| 0 <= j < s.len() && #[trigger] dedup_by_id(s)[i] == s[j],
        forall|i: int| 0 <= i < dedup_by_id(s).len() - 1 ==> (#[trigger] dedup_by_id(s)[i]).memory.id@ != dedup_by_id(s)[i + 1].memory.id@,
    decreases s.len(),
{
    if s.len() > 0 {
        lemma_dedup_from_source(s.drop_last());
        let d = dedup_by_id(s.drop_last());
        assert forall|i: int| 0 <= i < dedup_by_id(s).len() implies exists|j: int| 0 <= j < s.len() && #[trigger] dedup_by_id(s)[i] == s[j] by {
            if i < d.len() {
                let j = choose|j: int| 0 <= j < s.drop_last().len() && d[i] == s.drop_last()[j];
                assert(dedup_by_id(s)[i] == s[j]);
            } else {
                assert(dedup_by_id(s)[i] == s[s.len() - 1]);
            }
        }
    }
}

proof fn lemma_dedup_sorted(s: Seq<SearchResult>)
    requires
        sorted_desc(s),
    ensures
        sorted_desc(dedup_by_id(s)),
    decreases s.len(),
{
    if s.len() > 0 {
        let t = s.drop_last();
        assert(sorted_desc(t));
        lemma_dedup_sorted(t);
        lemma_dedup_from_source(t);
        let d = dedup_by_id(t);
        let r = dedup_by_id(s);
        assert forall|a: int, b: int| 0 <= a < b < r.len() implies (#[trigger] r[a]).score_of() >= (#[trigger] r[b]).score_of() by {
            if b == d.len() && r.len() == d.len() + 1 {
                let j = choose|j: int| 0 <= j < t.len() && #[trigger] d[a] == t[j];
                assert(s[j] == t[j]);
                assert(r[b] == s[s.len() - 1]);
            } else {
                assert(r[a] == d[a] && r[b] == d[b]);
            }
        }
    }
}

/// Suggestions are few, best first, and never name the same memory twice in a
/// row: whatever results the searches gave, the final list holds at most five,
/// with scores that never increase and no two neighbours with the same id.
pub proof fn lemma_suggestions_well_formed(results: Seq<SearchResult>, out: Seq<SearchResult>)
    requires
        exists|sorted: Seq<SearchResult>|
            stable_sorted_desc(results, sorted) && out == #[trigger] truncated(
                dedup_by_id(sorted),
                SUGGESTION_LIMIT as int,
            ),
    ensures
        out.len() <= SUGGESTION_LIMIT,
        sorted_desc(out),
        forall|i: int| 0 <= i < out.len() - 1 ==> (#[trigger] out[i]).memory.id@ != out[i + 1].memory.id@,
{
    let sorted = choose|sorted: Seq<SearchResult>|
        stable_sorted_desc(results, sorted) && out == #[trigger] truncated(
            dedup_by_id(sorted),
            SUGGESTION_LIMIT as int,
        );
    lemma_dedup_sorted(sorted);
    lemma_dedup_from_source(sorted);
    let d = dedup_by_id(sorted);
    assert forall|i: int| 0 <= i < out.len() - 1 implies (#[trigger] out[i]).memory.id@ != out[i + 1].memory.id@ by {
        assert(out[i] == d[i] && out[i + 1] == d[i + 1]);
    }
    assert forall|a: int, b: int| 0 <= a < b < out.len() implies (#[trigger] out[a]).score_of() >= (#[trigger] out[b]).score_of() by {
        assert(out[a] == d[a] && out[b] == d[b]);
    }
}

// ---- the recording flag ----

/// Records the outcome of asking the audio session to start, at time `now`: on
/// success a recording is under way since `now`; on failure none is, and a
/// recording that was under way is forgotten.
pub fn start_recording(state: &mut RecordingState, started: Result<(), AppError>, now: u64) -> (r: Result<(), AppError>)
    ensures
        match started {
            Ok(()) => r is Ok && final(state).is_recording && final(state).start_time == Some(now),
            Err(e) => {
                &&& r matches Err(e2) && e2 == e
                &&& !final(state).is_recording
                &&& final(state).start_time == if old(state).is_recording {
                    None
                } else {
                    old(state).start_time
                }
            },
        },
{
    if state.is_recording {
        state.is_recording = false;
        state.start_time = None;
    }
    match started {
        Ok(()) => {
            state.is_recording = true;
            state.start_time = Some(now);
            Ok(())
        },
        Err(e) => Err(e),
    }
}

/// Ends the recording under way before its transcript is asked for; refused
/// with "Not recording", the state untouched, when none is under way.
pub fn stop_recording(state: &mut RecordingState) -> (r: Result<(), String>)
    ensures
        old(state).is_recording ==> r is Ok && !final(state).is_recording && final(state).start_time is None,
        !old(state).is_recording ==> (r matches Err(e) && e@ == "Not recording"@) && final(state).is_recording
            == old(state).is_recording && final(state).start_time == old(state).start_time,
{
    if !state.is_recording {
        return Err("Not recording".to_owned());
    }
    state.is_recording = false;
    state.start_time = None;
    Ok(())
}

/// Forgets any recording under way.
pub fn cancel_recording(state: &mut RecordingState)
    ensures
        !final(state).is_recording,
        final(state).start_time is None,
{
    state.is_recording = false;
    state.start_time = None;
}

/// What the app reports at start-up: "ready" when both models are on disk,
/// else "downloading" (the missing ones are then fetched in the background).
pub fn initialization_status(whisper_present: bool, clip_present: bool) -> (s: String)
    ensures
        whisper_present && clip_present ==> s@ == "ready"@,
        !(whisper_present && clip_present) ==> s@ == "downloading"@,
{
    if !whisper_present || !clip_present {
        "downloading".to_owned()
    } else {
        "ready".to_owned()
    }
}

} // verus!
