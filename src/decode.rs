use vstd::prelude::*;

verus! {

/// The two line-oriented wire formats that a backend may stream in.
#[derive(Clone, Copy, Debug, PartialEq, Eq, Structural)]
pub enum Protocol {
    /// One JSON object per line, `{"response": text, "done": flag}`.
    LineJson,
    /// Event-stream lines `data: <json>`, ended by `data: [DONE]`.
    EventStream,
}

impl Protocol {
    /// Whether fragments of this protocol carry reasoning markup to strip:
    /// only the local engine's do.
    pub fn needs_sanitizing(&self) -> (r: bool)
        ensures
            r == (*self == Protocol::LineJson),
    {
        match self {
            Protocol::LineJson => true,
            Protocol::EventStream => false,
        }
    }
}

/// One decoded unit of streamed text; `is_final` marks the end of the stream.
#[derive(Debug)]
pub struct Fragment {
    pub text: String,
    pub is_final: bool,
}

/// What a fragment stands for: its text and its end-of-stream flag.
pub ghost struct FragmentView {
    pub text: Seq<char>,
    pub is_final: bool,
}

impl View for Fragment {
    type V = FragmentView;

    open spec fn view(&self) -> FragmentView {
        FragmentView { text: self.text@, is_final: self.is_final }
    }
}

/// The view of a decoded line's result.
pub open spec fn fragment_view(r: Option<Fragment>) -> Option<FragmentView> {
    match r {
        Some(f) => Some(f@),
        None => None,
    }
}

/// The `response` text and `done` flag that serde_json reads from one line
/// of the local engine's stream; `None` where the line is not a JSON object
/// with a string `response` and a boolean `done`.
pub uninterp spec fn local_record_of(line: Seq<u8>) -> Option<(Seq<char>, bool)>;

/// What serde_json reads from the payload of one event-stream line: `None`
/// where the payload is not JSON; else the string at
/// `choices[0].delta.content`, or `None` inside where that path is absent or
/// not a string.
pub uninterp spec fn delta_content_of(payload: Seq<u8>) -> Option<Option<Seq<char>>>;

/// Relies on `serde_json::from_slice::<serde_json::Value>` to parse the line,
/// and on `Value::get`, `Value::as_str`, `Value::as_bool` to read its two
/// members: the result depends on the bytes alone.
#[verifier::external_body]
fn read_local_record(line: &[u8]) -> (r: Option<(String, bool)>)
    ensures
        match r {
            Some((text, done)) => local_record_of(line@) == Some((text@, done)),
            None => local_record_of(line@) is None,
        },
{
    let v: serde_json::Value = serde_json::from_slice(line).ok()?;
    let text = v.get("response")?.as_str()?.to_string();
    let done = v.get("done")?.as_bool()?;
    Some((text, done))
}

/// Relies on `serde_json::from_slice::<serde_json::Value>` to parse the
/// payload, and on `Value::get` (by key and by index) and `Value::as_str` to
/// follow `choices[0].delta.content`: the result depends on the bytes alone.
#[verifier::external_body]
fn read_delta_content(payload: &[u8]) -> (r: Option<Option<String>>)
    ensures
        match r {
            Some(Some(text)) => delta_content_of(payload@) == Some(Some(text@)),
            Some(None) => delta_content_of(payload@) == Some(None::<Seq<char>>),
            None => delta_content_of(payload@) is None,
        },
{
    let v: serde_json::Value = serde_json::from_slice(payload).ok()?;
    let content = v.get("choices").and_then(|c| c.get(0)).and_then(|c| c.get("delta")).and_then(
        |d| d.get("content"),
    ).and_then(|c| c.as_str());
    Some(content.map(|s| s.to_string()))
}

/// An ASCII white-space byte: space, tab, line feed, vertical tab, form feed, carriage return.
pub open spec fn is_space_byte(b: u8) -> bool {
    b == 32 || (9 <= b && b <= 13)
}

/// The first position at or after `i` that is not a white-space byte (or the length).
pub open spec fn skip_space(s: Seq<u8>, i: int) -> int
    decreases s.len() - i,
{
    if 0 <= i < s.len() && is_space_byte(s[i]) {
        skip_space(s, i + 1)
    } else {
        i
    }
}

/// Position just past the last byte of `s[..j]` that is not white space.
pub open spec fn back_space(s: Seq<u8>, j: int) -> int
    decreases j,
{
    if 0 < j <= s.len() && is_space_byte(s[j - 1]) {
        back_space(s, j - 1)
    } else {
        j
    }
}

/// `s` without leading and trailing white-space bytes.
pub open spec fn trim_bytes(s: Seq<u8>) -> Seq<u8> {
    if skip_space(s, 0) >= s.len() {
        seq![]
    } else {
        s.subrange(skip_space(s, 0), back_space(s, s.len() as int))
    }
}

/// The line holds nothing but white space.
pub open spec fn is_blank(line: Seq<u8>) -> bool {
    skip_space(line, 0) >= line.len()
}

/// `data: `, which marks the significant lines of an event stream.
pub open spec fn data_prefix() -> Seq<u8> {
    seq![100u8, 97u8, 116u8, 97u8, 58u8, 32u8]
}

/// `[DONE]`, the payload that ends an event stream.
pub open spec fn done_sentinel() -> Seq<u8> {
    seq![91u8, 68u8, 79u8, 78u8, 69u8, 93u8]
}

/// The fragment that a parsed local-engine record stands for.
pub open spec fn local_fragment_view(record: Option<(Seq<char>, bool)>) -> Option<FragmentView> {
    match record {
        Some((text, done)) => Some(FragmentView { text, is_final: done }),
        None => None,
    }
}

/// The fragment that a parsed event payload stands for: an absent content
/// path is an empty, non-final fragment; a payload that did not parse gives none.
pub open spec fn delta_fragment_view(content: Option<Option<Seq<char>>>) -> Option<FragmentView> {
    match content {
        Some(Some(text)) => Some(FragmentView { text, is_final: false }),
        Some(None) => Some(FragmentView { text: seq![], is_final: false }),
        None => None,
    }
}

/// The payload of an event-stream line: what follows `data: `, after any
/// indentation; `None` for a line without that prefix.
pub open spec fn event_payload(line: Seq<u8>) -> Option<Seq<u8>> {
    let lo = skip_space(line, 0);
    if lo + 6 <= line.len() && line.subrange(lo, lo + 6) == data_prefix() {
        Some(line.subrange(lo + 6, line.len() as int))
    } else {
        None
    }
}

/// The fragment that one local-engine line decodes to; blank and malformed lines give none.
pub open spec fn local_line_fragment(line: Seq<u8>) -> Option<FragmentView> {
    if is_blank(line) {
        None
    } else {
        local_fragment_view(local_record_of(line))
    }
}

/// The fragment that one event-stream line decodes to: none for a line
/// without the data prefix or with malformed JSON, the empty final fragment
/// for the sentinel.
pub open spec fn event_line_fragment(line: Seq<u8>) -> Option<FragmentView> {
    match event_payload(line) {
        None => None,
        Some(payload) => if trim_bytes(payload) == done_sentinel() {
            Some(FragmentView { text: seq![], is_final: true })
        } else {
            delta_fragment_view(delta_content_of(payload))
        },
    }
}

/// The fragment that one complete line decodes to under `protocol`.
pub open spec fn line_fragment(protocol: Protocol, line: Seq<u8>) -> Option<FragmentView> {
    match protocol {
        Protocol::LineJson => local_line_fragment(line),
        Protocol::EventStream => event_line_fragment(line),
    }
}

/// A line that the protocol reads and that fails to parse: a non-blank
/// local-engine line that is not a record, or a data line whose payload is
/// neither the sentinel nor JSON.
pub open spec fn malformed_line(protocol: Protocol, line: Seq<u8>) -> bool {
    match protocol {
        Protocol::LineJson => !is_blank(line) && local_record_of(line) is None,
        Protocol::EventStream => match event_payload(line) {
            Some(payload) => trim_bytes(payload) != done_sentinel() && delta_content_of(payload) is None,
            None => false,
        },
    }
}

/// Turns a parsed local-engine record into its fragment.
pub fn local_fragment(record: Option<(String, bool)>) -> (r: Option<Fragment>)
    ensures
        fragment_view(r) == local_fragment_view(
            match record {
                Some((t, d)) => Some((t@, d)),
                None => None,
            },
        ),
{
    match record {
        Some((text, done)) => Some(Fragment { text, is_final: done }),
        None => None,
    }
}

/// Turns the content read from an event payload into its fragment.
pub fn delta_fragment(content: Option<Option<String>>) -> (r: Option<Fragment>)
    ensures
        fragment_view(r) == delta_fragment_view(
            match content {
                Some(Some(t)) => Some(Some(t@)),
                Some(None) => Some(None),
                None => None,
            },
        ),
{
    match content {
        Some(Some(text)) => Some(Fragment { text, is_final: false }),
        Some(None) => Some(Fragment { text: String::new(), is_final: false }),
        None => None,
    }
}

fn skip_space_exec(s: &[u8], i: usize) -> (r: usize)
    requires
        i <= s@.len(),
    ensures
        r == skip_space(s@, i as int),
        i <= r <= s@.len(),
{
    let mut j = i;
    while j < s.len() && (s[j] == 32 || (9 <= s[j] && s[j] <= 13))
        invariant
            i <= j <= s@.len(),
            skip_space(s@, i as int) == skip_space(s@, j as int),
        decreases s@.len() - j,
    {
        j += 1;
    }
    j
}

fn back_space_exec(s: &[u8], j: usize) -> (r: usize)
    requires
        j <= s@.len(),
    ensures
        r == back_space(s@, j as int),
{
    let mut k = j;
    while k > 0 && (s[k - 1] == 32 || (9 <= s[k - 1] && s[k - 1] <= 13))
        invariant
            k <= j <= s@.len(),
            back_space(s@, j as int) == back_space(s@, k as int),
        decreases k,
    {
        k -= 1;
    }
    k
}

proof fn lemma_skip_space_stops(s: Seq<u8>, i: int)
    ensures
        0 <= skip_space(s, i) < s.len() ==> !is_space_byte(s[skip_space(s, i)]),
        0 <= i ==> i <= skip_space(s, i),
    decreases s.len() - i,
{
    if 0 <= i < s.len() && is_space_byte(s[i]) {
        lemma_skip_space_stops(s, i + 1);
    }
}

proof fn lemma_back_space_bounds(s: Seq<u8>, j: int)
    ensures
        forall|k: int| back_space(s, j) <= k < j ==> is_space_byte(#[trigger] s[k]),
        0 <= j <= s.len() ==> 0 <= back_space(s, j) <= j,
    decreases j,
{
    if 0 < j <= s.len() && is_space_byte(s[j - 1]) {
        lemma_back_space_bounds(s, j - 1);
    }
}

/// The bytes of `s` from `at` on begin with `pat`.
fn starts_with_at(s: &[u8], at: usize, pat: &[u8]) -> (r: bool)
    ensures
        r == (at + pat@.len() <= s@.len() && s@.subrange(at as int, at + pat@.len()) == pat@),
{
    let n = s.len();
    if pat.len() > n || at > n - pat.len() {
        return false;
    }
    let mut k: usize = 0;
    while k < pat.len()
        invariant
            k <= pat@.len(),
            at + pat@.len() <= s@.len(),
            s@.len() <= usize::MAX,
            forall|m: int| 0 <= m < k ==> s@[at + m] == pat@[m],
        decreases pat@.len() - k,
    {
        if s[at + k] != pat[k] {
            assert(s@.subrange(at as int, at + pat@.len())[k as int] != pat@[k as int]);
            return false;
        }
        k += 1;
    }
    assert(s@.subrange(at as int, at + pat@.len()) =~= pat@);
    true
}

/// Whether `payload`, trimmed of white space, is the end-of-stream sentinel.
fn is_done_sentinel(payload: &[u8]) -> (r: bool)
    ensures
        r == (trim_bytes(payload@) == done_sentinel()),
{
    let sentinel: [u8; 6] = [91, 68, 79, 78, 69, 93];
    assert(sentinel@ =~= done_sentinel());
    let lo = skip_space_exec(payload, 0);
    if lo >= payload.len() {
        assert(trim_bytes(payload@).len() == 0);
        return false;
    }
    proof {
        lemma_skip_space_stops(payload@, 0);
        lemma_back_space_bounds(payload@, payload@.len() as int);
    }
    let hi = back_space_exec(payload, payload.len());
    assert(lo < hi) by {
        if hi <= lo {
            assert(is_space_byte(payload@[lo as int]));
        }
    }
    if hi - lo != 6 {
        return false;
    }
    let r = starts_with_at(payload, lo, &sentinel);
    assert(payload@.subrange(lo as int, lo + 6) == trim_bytes(payload@));
    r
}

/// Decodes one complete local-engine line. A blank line, or one that is not
/// a JSON record with a `response` string and a `done` flag, gives `None`:
/// it is skipped and decoding goes on with the next line.
pub fn decode_local_line(line: &[u8]) -> (r: Option<Fragment>)
    ensures
        fragment_view(r) == local_line_fragment(line@),
{
    let lo = skip_space_exec(line, 0);
    if lo >= line.len() {
        return None;
    }
    local_fragment(read_local_record(line))
}

/// Decodes one complete event-stream line. Lines without the `data: ` prefix
/// carry nothing; `data: [DONE]` is the empty final fragment; any other data
/// line is read as a JSON envelope, and one that does not parse is skipped.
pub fn decode_event_line(line: &[u8]) -> (r: Option<Fragment>)
    ensures
        fragment_view(r) == event_line_fragment(line@),
{
    let prefix: [u8; 6] = [100, 97, 116, 97, 58, 32];
    assert(prefix@ =~= data_prefix());
    let n = line.len();
    let lo = skip_space_exec(line, 0);
    if !starts_with_at(line, lo, &prefix) {
        return None;
    }
    let payload = &line[lo + 6..n];
    if is_done_sentinel(payload) {
        Some(Fragment { text: String::new(), is_final: true })
    } else {
        delta_fragment(read_delta_content(payload))
    }
}

/// Decodes one complete line under `protocol`.
pub fn decode_line(protocol: Protocol, line: &[u8]) -> (r: Option<Fragment>)
    ensures
        fragment_view(r) == line_fragment(protocol, line@),
{
    match protocol {
        Protocol::LineJson => decode_local_line(line),
        Protocol::EventStream => decode_event_line(line),
    }
}

} // verus!
