//! The application on top of the stack: a small HTTP router that echoes whatever is not HTTP.
use vstd::prelude::*;

use crate::clock::{unix_seconds, wall_clock_reads};
use crate::text::{digits, digits_bounds, digits_of};
use crate::wire::{ascii, copy_bytes, push_bytes, push_text};
use vstd::slice::slice_subrange;
use vstd::utf8::is_ascii_chars;

verus! {

/// Whether `data` begins with the ASCII text `text`.
pub open spec fn begins(data: Seq<u8>, text: Seq<char>) -> bool {
    data.len() >= text.len() && data.take(text.len() as int) == ascii(text)
}

/// Whether `data` is the beginning of an HTTP request, as far as the method tells.
pub open spec fn is_http(data: Seq<u8>) -> bool {
    begins(data, "GET "@) || begins(data, "POST "@) || begins(data, "HEAD "@) || begins(
        data,
        "PUT "@,
    ) || begins(data, "DELETE "@)
}

/// Whether the end of a line and an empty line stand at `i`.
pub open spec fn blank_line_at(data: Seq<u8>, i: int) -> bool {
    &&& 0 <= i
    &&& i + 4 <= data.len()
    &&& data[i] == 13
    &&& data[i + 1] == 10
    &&& data[i + 2] == 13
    &&& data[i + 3] == 10
}

/// Whether the request line and the headers are the first `n` bytes, up to and with the first empty
/// line.
pub open spec fn head_ends_at(data: Seq<u8>, n: int) -> bool {
    blank_line_at(data, n - 4) && forall|i: int| i < n - 4 ==> !#[trigger] blank_line_at(data, i)
}

/// How many bytes the request line and the headers take, once they are complete.
pub open spec fn head_len(data: Seq<u8>) -> Option<int> {
    if exists|n: int| head_ends_at(data, n) {
        Some(choose|n: int| head_ends_at(data, n))
    } else {
        None
    }
}

pub open spec fn lower_case(b: u8) -> u8 {
    if 65 <= b <= 90 {
        (b + 32) as u8
    } else {
        b
    }
}

/// Whether a line that gives the length of the body begins behind the end of line at `i`.
pub open spec fn length_field_at(head: Seq<u8>, i: int) -> bool {
    &&& 0 <= i
    &&& i + 17 <= head.len()
    &&& head[i] == 13
    &&& head[i + 1] == 10
    &&& forall|k: int| 0 <= k < 15 ==> lower_case(#[trigger] head[i + 2 + k])
        == ascii("content-length:"@)[k]
}

pub open spec fn first_length_field(head: Seq<u8>, i: int) -> bool {
    length_field_at(head, i) && forall|j: int| j < i ==> !#[trigger] length_field_at(head, j)
}

pub open spec fn skip_blanks(s: Seq<u8>) -> Seq<u8>
    decreases s.len(),
{
    if s.len() > 0 && (s[0] == 32 || s[0] == 9) {
        skip_blanks(s.skip(1))
    } else {
        s
    }
}

/// How many digits `s` begins with.
pub open spec fn digit_run(s: Seq<u8>) -> nat
    decreases s.len(),
{
    if s.len() > 0 && 48 <= s[0] <= 57 {
        1 + digit_run(s.skip(1))
    } else {
        0
    }
}

/// The number that the ASCII digits in `s` stand for.
pub open spec fn number_in(s: Seq<u8>) -> nat
    decreases s.len(),
{
    if s.len() == 0 {
        0
    } else {
        number_in(s.drop_last()) * 10 + (s.last() - 48) as nat
    }
}

/// The length of the body as the headers give it.
pub open spec fn declared_length(head: Seq<u8>) -> Option<nat> {
    if exists|i: int| first_length_field(head, i) {
        let i = choose|i: int| first_length_field(head, i);
        let value = skip_blanks(head.skip(i + 17));
        if digit_run(value) > 0 {
            Some(number_in(value.take(digit_run(value) as int)))
        } else {
            None
        }
    } else {
        None
    }
}

/// The body of a request whose first `n` bytes are the request line and the headers: as much as the
/// headers say, or everything else where they do not say.
pub open spec fn body_of(data: Seq<u8>, n: int) -> Seq<u8> {
    match declared_length(data.take(n)) {
        Some(len) => data.subrange(n, n + len),
        None => data.skip(n),
    }
}

/// Whether a request is complete: its headers, and for a POST also as much of a body as they say.
pub open spec fn is_complete(data: Seq<u8>) -> bool {
    match head_len(data) {
        None => false,
        Some(n) => begins(data, "POST "@) ==> match declared_length(data.take(n)) {
            Some(len) => n + len <= data.len(),
            None => true,
        },
    }
}

/// A number in decimal, in ASCII.
pub open spec fn decimal_bytes(n: nat) -> Seq<u8> {
    Seq::new(digits(n).len(), |i: int| (48 + digits(n)[i]) as u8)
}

/// A response with the given status and plain text for a body.
pub open spec fn http_response(status: Seq<char>, body: Seq<u8>) -> Seq<u8> {
    ascii("HTTP/1.1 "@) + ascii(status) + ascii(
        "\r\nContent-Type: text/plain\r\nContent-Length: "@,
    ) + decimal_bytes(body.len()) + ascii("\r\nConnection: close\r\n\r\n"@) + body
}

/// The response to a complete request at the given time.
pub open spec fn response(data: Seq<u8>, unix_secs: u64) -> Seq<u8> {
    let n = head_len(data)->0;
    if begins(data, "GET / "@) {
        http_response("200 OK"@, ascii("Hello from Magnum-TCP!\r\n"@))
    } else if begins(data, "GET /echo "@) {
        http_response("200 OK"@, data.take(n))
    } else if begins(data, "GET /time "@) {
        http_response("200 OK"@, decimal_bytes(unix_secs as nat) + ascii("\r\n"@))
    } else if begins(data, "POST / "@) {
        http_response("200 OK"@, body_of(data, n))
    } else {
        http_response("404 Not Found"@, ascii("404 Not Found\r\n"@))
    }
}

/// What is sent back for the bytes received so far, if it is time to send anything.
pub open spec fn reply(data: Seq<u8>, unix_secs: u64) -> Option<Seq<u8>> {
    if is_http(data) {
        if is_complete(data) {
            Some(response(data, unix_secs))
        } else {
            None
        }
    } else if data.len() > 0 {
        Some(data)
    } else {
        None
    }
}

/// What a client has sent, whether it was answered, and whether its data is raw: not HTTP, and
/// echoed.
#[verifier::ext_equal]
pub ghost struct SessionView {
    pub request: Seq<u8>,
    pub responded: bool,
    pub raw: bool,
}

impl SessionView {
    /// A client that has sent nothing yet.
    pub open spec fn fresh() -> SessionView {
        SessionView { request: Seq::empty(), responded: false, raw: false }
    }

    /// After `chunk` was received at the given time, and what is sent back. A client that was
    /// answered gets the rest of its data back if that is raw, and nothing more otherwise.
    pub open spec fn received(self, chunk: Seq<u8>, unix_secs: u64) -> (
        SessionView,
        Option<Seq<u8>>,
    ) {
        let request = self.request + chunk;
        let answer = if !self.responded {
            reply(request, unix_secs)
        } else if self.raw && chunk.len() > 0 {
            Some(chunk)
        } else {
            None
        };
        let raw = if !self.responded {
            request.len() > 0 && !is_http(request)
        } else {
            self.raw
        };
        (SessionView { request, responded: self.responded || answer is Some, raw }, answer)
    }
}

/// One client's conversation. An HTTP request is answered once; raw data is echoed as it comes.
pub struct HttpSession {
    request_buf: Vec<u8>,
    responded: bool,
    raw: bool,
}

impl View for HttpSession {
    type V = SessionView;

    closed spec fn view(&self) -> SessionView {
        SessionView { request: self.request_buf@, responded: self.responded, raw: self.raw }
    }
}

/// The bytes of an answer, if there is one.
pub open spec fn answer_view(answer: Option<Vec<u8>>) -> Option<Seq<u8>> {
    match answer {
        Some(bytes) => Some(bytes@),
        None => None,
    }
}

impl HttpSession {
    pub fn new() -> (r: Self)
        ensures
            r@ == SessionView::fresh(),
    {
        HttpSession { request_buf: Vec::new(), responded: false, raw: false }
    }

    /// Takes what the client sends now, and gives back what to send in answer, if anything.
    pub fn receive(&mut self, chunk: &[u8]) -> (r: Option<Vec<u8>>)
        ensures
            exists|unix_secs: u64, nanos: u32|
                {
                    let (next, answer) = old(self)@.received(chunk@, unix_secs);
                    #[trigger] wall_clock_reads(unix_secs, nanos) && final(self)@ == next
                        && answer_view(r) == answer
                },
    {
        let unix_secs: u64 = unix_seconds();
        self.receive_at(chunk, unix_secs)
    }

    /// Takes what the client sends at the given time, and gives back what to send in answer, if
    /// anything.
    pub fn receive_at(&mut self, chunk: &[u8], unix_secs: u64) -> (r: Option<Vec<u8>>)
        ensures
            final(self)@ == old(self)@.received(chunk@, unix_secs).0,
            answer_view(r) == old(self)@.received(chunk@, unix_secs).1,
    {
        push_bytes(&mut self.request_buf, chunk);
        if self.responded {
            return if self.raw && chunk.len() > 0 {
                Some(copy_bytes(chunk))
            } else {
                None
            };
        }
        let answer = reply_to(self.request_buf.as_slice(), unix_secs);
        self.raw = self.request_buf.len() > 0 && !looks_like_http(self.request_buf.as_slice());
        if answer.is_some() {
            self.responded = true;
        }
        answer
    }
}

/// What is sent back for the bytes received so far.
pub fn reply_to(data: &[u8], unix_secs: u64) -> (r: Option<Vec<u8>>)
    ensures
        answer_view(r) == reply(data@, unix_secs),
{
    if !looks_like_http(data) {
        return if data.len() > 0 {
            Some(copy_bytes(data))
        } else {
            None
        };
    }
    let n: usize = match find_head_end(data) {
        Some(n) => n,
        None => {
            return None;
        },
    };
    proof {
        head_end_is_unique(data@);
    }
    let head = slice_subrange(data, 0, n);
    assert(head@ =~= data@.take(n as int));
    let declared = find_declared_length(head);
    let total: usize = data.len();
    proof {
        reveal_strlit("POST ");
        assert(is_ascii_chars("POST "@));
    }
    if starts_with(data, "POST ") {
        match declared {
            DeclaredLength::Bytes(len) => {
                if len > (total - n) as u64 {
                    return None;
                }
            },
            DeclaredLength::TooLong => {
                return None;
            },
            DeclaredLength::Unknown => {},
        }
    }
    Some(respond(data, n, declared, unix_secs))
}

/// The length of a body as a request's headers give it.
enum DeclaredLength {
    Unknown,
    Bytes(u64),
    TooLong,
}

impl DeclaredLength {
    spec fn says(self, len: Option<nat>) -> bool {
        match self {
            DeclaredLength::Unknown => len is None,
            DeclaredLength::Bytes(n) => len == Some(n as nat),
            DeclaredLength::TooLong => len matches Some(n) && n > u64::MAX,
        }
    }
}

fn respond(data: &[u8], n: usize, declared: DeclaredLength, unix_secs: u64) -> (r: Vec<u8>)
    requires
        head_len(data@) == Some(n as int),
        n <= data@.len(),
        declared.says(declared_length(data@.take(n as int))),
        is_complete(data@),
    ensures
        r@ == response(data@, unix_secs),
{
    proof {
        reveal_strlit("GET / ");
        reveal_strlit("GET /echo ");
        reveal_strlit("GET /time ");
        reveal_strlit("POST / ");
        reveal_strlit("POST ");
        reveal_strlit("200 OK");
        reveal_strlit("404 Not Found");
        reveal_strlit("Hello from Magnum-TCP!\r\n");
        reveal_strlit("404 Not Found\r\n");
        reveal_strlit("\r\n");
        assert(is_ascii_chars("GET / "@));
        assert(is_ascii_chars("GET /echo "@));
        assert(is_ascii_chars("GET /time "@));
        assert(is_ascii_chars("POST / "@));
        assert(is_ascii_chars("200 OK"@));
        assert(is_ascii_chars("404 Not Found"@));
        assert(is_ascii_chars("Hello from Magnum-TCP!\r\n"@));
        assert(is_ascii_chars("404 Not Found\r\n"@));
        assert(is_ascii_chars("\r\n"@));
    }
    let mut body: Vec<u8> = Vec::new();
    if starts_with(data, "GET / ") {
        push_text(&mut body, "Hello from Magnum-TCP!\r\n");
        assert(body@ =~= ascii("Hello from Magnum-TCP!\r\n"@));
        build_response("200 OK", body.as_slice())
    } else if starts_with(data, "GET /echo ") {
        let head = slice_subrange(data, 0, n);
        assert(head@ =~= data@.take(n as int));
        build_response("200 OK", head)
    } else if starts_with(data, "GET /time ") {
        push_decimal(&mut body, unix_secs);
        push_text(&mut body, "\r\n");
        assert(body@ =~= decimal_bytes(unix_secs as nat) + ascii("\r\n"@));
        build_response("200 OK", body.as_slice())
    } else if starts_with(data, "POST / ") {
        proof {
            post_is_a_post(data@);
        }
        let total: usize = data.len();
        let end: usize = match declared {
            DeclaredLength::Bytes(len) => n + len as usize,
            _ => total,
        };
        let rest = slice_subrange(data, n, end);
        assert(rest@ =~= body_of(data@, n as int));
        build_response("200 OK", rest)
    } else {
        push_text(&mut body, "404 Not Found\r\n");
        assert(body@ =~= ascii("404 Not Found\r\n"@));
        build_response("404 Not Found", body.as_slice())
    }
}

proof fn post_is_a_post(data: Seq<u8>)
    requires
        begins(data, "POST / "@),
    ensures
        begins(data, "POST "@),
{
    reveal_strlit("POST / ");
    reveal_strlit("POST ");
    assert(ascii("POST "@) =~= ascii("POST / "@).take(5));
    assert(data.take(5) =~= data.take(7).take(5));
}

fn build_response(status: &str, body: &[u8]) -> (r: Vec<u8>)
    requires
        is_ascii_chars(status@),
    ensures
        r@ == http_response(status@, body@),
{
    proof {
        reveal_strlit("HTTP/1.1 ");
        reveal_strlit("\r\nContent-Type: text/plain\r\nContent-Length: ");
        reveal_strlit("\r\nConnection: close\r\n\r\n");
        assert(is_ascii_chars("HTTP/1.1 "@));
        assert(is_ascii_chars("\r\nContent-Type: text/plain\r\nContent-Length: "@));
        assert(is_ascii_chars("\r\nConnection: close\r\n\r\n"@));
    }
    let mut out: Vec<u8> = Vec::new();
    push_text(&mut out, "HTTP/1.1 ");
    push_text(&mut out, status);
    push_text(&mut out, "\r\nContent-Type: text/plain\r\nContent-Length: ");
    push_decimal(&mut out, body.len() as u64);
    push_text(&mut out, "\r\nConnection: close\r\n\r\n");
    push_bytes(&mut out, body);
    assert(out@ =~= http_response(status@, body@));
    out
}

fn push_decimal(out: &mut Vec<u8>, n: u64)
    ensures
        final(out)@ == old(out)@ + decimal_bytes(n as nat),
{
    let ds = digits_of(n);
    let mut i: usize = 0;
    assert(out@ =~= old(out)@ + decimal_bytes(n as nat).take(0));
    while i < ds.len()
        invariant
            i <= ds@.len(),
            ds@ == digits(n as nat),
            out@ == old(out)@ + decimal_bytes(n as nat).take(i as int),
        decreases ds@.len() - i,
    {
        proof {
            digits_bounds(n as nat);
        }
        out.push(48 + ds[i]);
        i = i + 1;
        assert(out@ =~= old(out)@ + decimal_bytes(n as nat).take(i as int));
    }
    assert(decimal_bytes(n as nat).take(i as int) =~= decimal_bytes(n as nat));
}

fn starts_with(data: &[u8], text: &str) -> (r: bool)
    requires
        is_ascii_chars(text@),
    ensures
        r == begins(data@, text@),
{
    let mut prefix: Vec<u8> = Vec::new();
    push_text(&mut prefix, text);
    assert(prefix@ =~= ascii(text@));
    if data.len() < prefix.len() {
        return false;
    }
    let mut i: usize = 0;
    while i < prefix.len()
        invariant
            i <= prefix@.len(),
            prefix@ == ascii(text@),
            prefix@.len() <= data@.len(),
            forall|j: int| 0 <= j < i ==> data@[j] == prefix@[j],
        decreases prefix@.len() - i,
    {
        if data[i] != prefix[i] {
            assert(data@.take(text@.len() as int)[i as int] != ascii(text@)[i as int]);
            return false;
        }
        i = i + 1;
    }
    assert(data@.take(text@.len() as int) =~= ascii(text@));
    true
}

fn looks_like_http(data: &[u8]) -> (r: bool)
    ensures
        r == is_http(data@),
{
    proof {
        reveal_strlit("GET ");
        reveal_strlit("POST ");
        reveal_strlit("HEAD ");
        reveal_strlit("PUT ");
        reveal_strlit("DELETE ");
        assert(is_ascii_chars("GET "@));
        assert(is_ascii_chars("POST "@));
        assert(is_ascii_chars("HEAD "@));
        assert(is_ascii_chars("PUT "@));
        assert(is_ascii_chars("DELETE "@));
    }
    starts_with(data, "GET ") || starts_with(data, "POST ") || starts_with(data, "HEAD ")
        || starts_with(data, "PUT ") || starts_with(data, "DELETE ")
}

proof fn head_end_is_unique(data: Seq<u8>)
    ensures
        forall|n: int| head_ends_at(data, n) ==> head_len(data) == Some(n),
        (forall|i: int| !blank_line_at(data, i)) ==> head_len(data) is None,
{
    assert forall|n: int| head_ends_at(data, n) implies head_len(data) == Some(n) by {
        let m = choose|m: int| head_ends_at(data, m);
        assert(head_ends_at(data, m));
        assert(blank_line_at(data, n - 4) && blank_line_at(data, m - 4));
    }
}

fn find_head_end(data: &[u8]) -> (r: Option<usize>)
    ensures
        match r {
            Some(n) => n <= data@.len() && head_len(data@) == Some(n as int),
            None => head_len(data@) is None,
        },
{
    proof {
        head_end_is_unique(data@);
    }
    if data.len() < 4 {
        return None;
    }
    let last: usize = data.len() - 4;
    let mut i: usize = 0;
    while i <= last
        invariant
            i <= last + 1,
            last + 4 == data@.len(),
            forall|j: int| j < i ==> !#[trigger] blank_line_at(data@, j),
            forall|n: int| head_ends_at(data@, n) ==> head_len(data@) == Some(n),
        decreases last + 1 - i,
    {
        if data[i] == 13 && data[i + 1] == 10 && data[i + 2] == 13 && data[i + 3] == 10 {
            assert(head_ends_at(data@, i + 4));
            return Some(i + 4);
        }
        i = i + 1;
    }
    None
}

proof fn first_length_field_is_unique(head: Seq<u8>, i: int, j: int)
    requires
        first_length_field(head, i),
        first_length_field(head, j),
    ensures
        i == j,
{
    assert(length_field_at(head, i) && length_field_at(head, j));
}

/// Whether a line that gives the length of the body begins behind the end of line at `i`.
fn is_length_field(head: &[u8], i: usize) -> (r: bool)
    requires
        i <= head@.len(),
    ensures
        r == length_field_at(head@, i as int),
{
    if head.len() - i < 17 {
        return false;
    }
    if head[i] != 13 || head[i + 1] != 10 {
        return false;
    }
    proof {
        reveal_strlit("content-length:");
        assert(is_ascii_chars("content-length:"@));
    }
    let mut name: Vec<u8> = Vec::new();
    push_text(&mut name, "content-length:");
    assert(name@ =~= ascii("content-length:"@));
    let mut k: usize = 0;
    while k < 15
        invariant
            k <= 15,
            i + 17 <= head.len(),
            head.len() == head@.len(),
            name@ == ascii("content-length:"@),
            name@.len() == 15,
            forall|j: int|
                0 <= j < k ==> lower_case(#[trigger] head@[i + 2 + j]) == ascii(
                    "content-length:"@,
                )[j],
        decreases 15 - k,
    {
        let b: u8 = head[i + 2 + k];
        let lower: u8 = if 65 <= b && b <= 90 { b + 32 } else { b };
        if lower != name[k] {
            assert(lower_case(head@[i + 2 + k]) != ascii("content-length:"@)[k as int]);
            return false;
        }
        k = k + 1;
    }
    true
}

fn find_declared_length(head: &[u8]) -> (r: DeclaredLength)
    ensures
        r.says(declared_length(head@)),
{
    let mut i: usize = 0;
    while i < head.len()
        invariant
            i <= head@.len(),
            forall|j: int| j < i ==> !#[trigger] length_field_at(head@, j),
        decreases head@.len() - i,
    {
        if is_length_field(head, i) {
            proof {
                assert(first_length_field(head@, i as int));
                first_length_field_is_unique(
                    head@,
                    i as int,
                    choose|j: int| first_length_field(head@, j),
                );
            }
            return read_length(slice_subrange(head, i + 17, head.len()), Ghost(head@), Ghost(
                i as int,
            ));
        }
        i = i + 1;
    }
    assert forall|j: int| !first_length_field(head@, j) by {
        assert(!length_field_at(head@, j));
    }
    DeclaredLength::Unknown
}

proof fn number_grows(s: Seq<u8>, n: int)
    requires
        0 <= n <= s.len(),
        forall|i: int| 0 <= i < s.len() ==> 48 <= #[trigger] s[i] <= 57,
    ensures
        number_in(s.take(n)) <= number_in(s),
    decreases s.len() - n,
{
    if n < s.len() {
        number_grows(s, n + 1);
        assert(s.take(n + 1).drop_last() =~= s.take(n));
    } else {
        assert(s.take(n) =~= s);
    }
}

proof fn digit_run_is_digits(s: Seq<u8>)
    ensures
        digit_run(s) <= s.len(),
        forall|i: int| 0 <= i < digit_run(s) ==> 48 <= #[trigger] s[i] <= 57,
        digit_run(s) < s.len() ==> !(48 <= s[digit_run(s) as int] <= 57),
    decreases s.len(),
{
    if s.len() > 0 && 48 <= s[0] <= 57 {
        let rest = s.skip(1);
        digit_run_is_digits(rest);
        assert forall|i: int| 0 <= i < digit_run(s) implies 48 <= #[trigger] s[i] <= 57 by {
            if i > 0 {
                assert(s[i] == rest[i - 1]);
            }
        }
        assert(digit_run(s) < s.len() ==> s[digit_run(s) as int] == rest[digit_run(rest) as int]);
    }
}

/// The number at the beginning of a field's value.
fn read_length(value: &[u8], Ghost(head): Ghost<Seq<u8>>, Ghost(at): Ghost<int>) -> (r:
    DeclaredLength)
    requires
        value@ == head.subrange(at + 17, head.len() as int),
        0 <= at,
        at + 17 <= head.len(),
        first_length_field(head, at),
        at == choose|i: int| first_length_field(head, i),
    ensures
        r.says(declared_length(head)),
{
    let mut start: usize = 0;
    assert(value@ =~= head.skip(at + 17));
    assert(value@.skip(0) =~= value@);
    while start < value.len() && (value[start] == 32 || value[start] == 9)
        invariant
            start <= value@.len(),
            skip_blanks(value@) == skip_blanks(value@.skip(start as int)),
        decreases value@.len() - start,
    {
        assert(value@.skip(start as int).skip(1) =~= value@.skip(start + 1));
        start = start + 1;
    }
    let ghost text = value@.skip(start as int);
    let ghost run = digit_run(text) as int;
    let ghost number = text.take(run);
    proof {
        assert(skip_blanks(value@) == text);
        digit_run_is_digits(text);
        assert(text.take(0) =~= Seq::<u8>::empty());
        assert(number.take(0) =~= Seq::<u8>::empty());
    }
    let mut total: u64 = 0;
    let mut i: usize = start;
    while i < value.len() && 48 <= value[i] && value[i] <= 57
        invariant
            start <= i <= value@.len(),
            text == value@.skip(start as int),
            run == digit_run(text),
            run <= text.len(),
            number == text.take(run),
            forall|j: int| 0 <= j < run ==> 48 <= #[trigger] text[j] <= 57,
            run < text.len() ==> !(48 <= text[run] <= 57),
            declared_length(head) == (if run > 0 {
                Some(number_in(number))
            } else {
                None::<nat>
            }),
            i - start <= run,
            total == number_in(number.take(i - start)),
        decreases value@.len() - i,
    {
        proof {
            assert(text[i - start] == value@[i as int]);
            assert(i - start < run);
            assert(number.take(i - start + 1).drop_last() =~= number.take(i - start));
            assert(number.take(i - start + 1).last() == value@[i as int]);
            assert forall|j: int| 0 <= j < number.len() implies 48 <= #[trigger] number[j]
                <= 57 by {
                assert(number[j] == text[j]);
            }
            number_grows(number, i - start + 1);
        }
        let digit: u64 = (value[i] - 48) as u64;
        if total > (u64::MAX - digit) / 10 {
            assert(number_in(number) > u64::MAX);
            return DeclaredLength::TooLong;
        }
        total = total * 10 + digit;
        i = i + 1;
    }
    proof {
        if i < value@.len() {
            assert(text[i - start] == value@[i as int]);
        }
        assert(i - start == run);
        assert(number.take(run) =~= number);
    }
    if i == start {
        DeclaredLength::Unknown
    } else {
        DeclaredLength::Bytes(total)
    }
}

/// Every response says the length of its body, and is made of one of the two statuses.
pub proof fn response_says_its_length(data: Seq<u8>, unix_secs: u64)
    ensures
        exists|status: Seq<char>, body: Seq<u8>|
            (status == "200 OK"@ || status == "404 Not Found"@) && response(data, unix_secs)
                == #[trigger] http_response(status, body),
{
    let n = head_len(data)->0;
    if begins(data, "GET / "@) {
        assert(response(data, unix_secs) == http_response(
            "200 OK"@,
            ascii("Hello from Magnum-TCP!\r\n"@),
        ));
    } else if begins(data, "GET /echo "@) {
        assert(response(data, unix_secs) == http_response("200 OK"@, data.take(n)));
    } else if begins(data, "GET /time "@) {
        assert(response(data, unix_secs) == http_response(
            "200 OK"@,
            decimal_bytes(unix_secs as nat) + ascii("\r\n"@),
        ));
    } else if begins(data, "POST / "@) {
        assert(response(data, unix_secs) == http_response("200 OK"@, body_of(data, n)));
    } else {
        assert(response(data, unix_secs) == http_response(
            "404 Not Found"@,
            ascii("404 Not Found\r\n"@),
        ));
    }
}

/// What is not HTTP comes back as it is, however it is cut: the answers to the first chunk and to
/// the next one are together what was sent.
pub proof fn raw_data_is_echoed(s: SessionView, a: Seq<u8>, b: Seq<u8>, t1: u64, t2: u64)
    requires
        !s.responded,
        !is_http(s.request + a),
        (s.request + a).len() > 0,
    ensures
        s.received(a, t1).1 == Some(s.request + a),
        sent_back(s.received(a, t1).1) + sent_back(s.received(a, t1).0.received(b, t2).1)
            == s.request + a + b,
{
}

/// The bytes that an answer consists of.
pub open spec fn sent_back(answer: Option<Seq<u8>>) -> Seq<u8> {
    match answer {
        Some(bytes) => bytes,
        None => Seq::empty(),
    }
}

/// All that is sent back to a client that sends `chunks`, each at its time.
pub open spec fn all_sent_back(s: SessionView, chunks: Seq<(Seq<u8>, u64)>) -> Seq<u8>
    decreases chunks.len(),
{
    if chunks.len() == 0 {
        Seq::empty()
    } else {
        let (next, answer) = s.received(chunks[0].0, chunks[0].1);
        sent_back(answer) + all_sent_back(next, chunks.skip(1))
    }
}

/// All that a client sends.
pub open spec fn all_sent(chunks: Seq<(Seq<u8>, u64)>) -> Seq<u8>
    decreases chunks.len(),
{
    if chunks.len() == 0 {
        Seq::empty()
    } else {
        chunks[0].0 + all_sent(chunks.skip(1))
    }
}

/// Once data is known to be raw, all that follows is echoed.
proof fn the_rest_is_echoed(s: SessionView, chunks: Seq<(Seq<u8>, u64)>)
    requires
        s.responded && s.raw,
    ensures
        all_sent_back(s, chunks) == all_sent(chunks),
    decreases chunks.len(),
{
    if chunks.len() > 0 {
        let (chunk, at) = chunks[0];
        the_rest_is_echoed(s.received(chunk, at).0, chunks.skip(1));
        assert(sent_back(s.received(chunk, at).1) =~= chunk);
    }
}

/// A raw connection gets back exactly what it sends, in as many chunks as that comes.
pub proof fn raw_connection_is_echoed(chunks: Seq<(Seq<u8>, u64)>)
    requires
        chunks.len() > 0,
        chunks[0].0.len() > 0,
        !is_http(chunks[0].0),
    ensures
        all_sent_back(SessionView::fresh(), chunks) == all_sent(chunks),
{
    let s = SessionView::fresh();
    let (chunk, at) = chunks[0];
    assert(s.request + chunk =~= chunk);
    the_rest_is_echoed(s.received(chunk, at).0, chunks.skip(1));
}

/// How a request is cut into chunks does not matter: while nothing is answered, two chunks are as
/// good as one.
pub proof fn chunks_add_up(s: SessionView, a: Seq<u8>, b: Seq<u8>, t1: u64, t2: u64)
    requires
        s.received(a, t1).1 is None,
    ensures
        s.received(a, t1).0.received(b, t2) == s.received(a + b, t2),
{
    assert(s.request + a + b =~= s.request + (a + b));
}

/// An HTTP request is answered at most once: whatever the client sends after the response, nothing
/// is sent back.
pub proof fn one_answer_per_request(
    s: SessionView,
    a: Seq<u8>,
    at: u64,
    chunks: Seq<(Seq<u8>, u64)>,
)
    requires
        !s.responded,
        is_http(s.request + a),
        s.received(a, at).1 is Some,
    ensures
        all_sent_back(s.received(a, at).0, chunks) == Seq::<u8>::empty(),
{
    nothing_follows(s.received(a, at).0, chunks);
}

/// After the response to a request nothing more is sent.
proof fn nothing_follows(s: SessionView, chunks: Seq<(Seq<u8>, u64)>)
    requires
        s.responded && !s.raw,
    ensures
        all_sent_back(s, chunks) == Seq::<u8>::empty(),
    decreases chunks.len(),
{
    if chunks.len() > 0 {
        let (chunk, at) = chunks[0];
        nothing_follows(s.received(chunk, at).0, chunks.skip(1));
    }
}

/// Lines put one behind the other, each ended by a carriage return and a line feed.
pub open spec fn joined(lines: Seq<Seq<u8>>) -> Seq<u8>
    decreases lines.len(),
{
    if lines.len() == 0 {
        Seq::empty()
    } else {
        joined(lines.drop_last()) + lines.last() + seq![13u8, 10u8]
    }
}

/// A request line and header lines with the empty line that ends them.
pub open spec fn head_of(lines: Seq<Seq<u8>>) -> Seq<u8> {
    joined(lines) + seq![13u8, 10u8]
}

/// Whether these are the lines of a head: none is empty, and none holds a carriage return.
pub open spec fn are_lines(lines: Seq<Seq<u8>>) -> bool {
    forall|k: int|
        0 <= k < lines.len() ==> (#[trigger] lines[k]).len() > 0 && !lines[k].contains(13)
}

/// Whether a line begins with the name of the length field and its colon, in any letter case.
pub open spec fn names_the_length(line: Seq<u8>) -> bool {
    &&& line.len() >= 15
    &&& line[0] == 99 || line[0] == 67
    &&& line[1] == 111 || line[1] == 79
    &&& line[2] == 110 || line[2] == 78
    &&& line[3] == 116 || line[3] == 84
    &&& line[4] == 101 || line[4] == 69
    &&& line[5] == 110 || line[5] == 78
    &&& line[6] == 116 || line[6] == 84
    &&& line[7] == 45
    &&& line[8] == 108 || line[8] == 76
    &&& line[9] == 101 || line[9] == 69
    &&& line[10] == 110 || line[10] == 78
    &&& line[11] == 103 || line[11] == 71
    &&& line[12] == 116 || line[12] == 84
    &&& line[13] == 104 || line[13] == 72
    &&& line[14] == 58
}

/// Whether a line gives the length `n`: its name, blanks or none, and the number.
pub open spec fn gives_length(line: Seq<u8>, blanks: nat, n: nat) -> bool {
    &&& names_the_length(line)
    &&& 15 + blanks <= line.len()
    &&& forall|i: int| 15 <= i < 15 + blanks ==> line[i] == 32 || line[i] == 9
    &&& line.skip((15 + blanks) as int) == decimal_bytes(n)
}

/// Where line `k` begins.
spec fn line_start(lines: Seq<Seq<u8>>, k: int) -> int {
    joined(lines.take(k)).len() as int
}

proof fn line_starts_add_up(lines: Seq<Seq<u8>>, k: int)
    requires
        0 <= k < lines.len(),
    ensures
        line_start(lines, k + 1) == line_start(lines, k) + lines[k].len() + 2,
        line_start(lines, 0) == 0,
        line_start(lines, lines.len() as int) == joined(lines).len(),
{
    assert(lines.take(k + 1).drop_last() =~= lines.take(k));
    assert(lines.take(k + 1).last() == lines[k]);
    assert(lines.take(0) =~= Seq::<Seq<u8>>::empty());
    assert(lines.take(lines.len() as int) =~= lines);
}

/// Each line stands where it begins, with its end behind it.
proof fn line_is_in_place(lines: Seq<Seq<u8>>, k: int)
    requires
        0 <= k < lines.len(),
    ensures
        0 <= line_start(lines, k),
        line_start(lines, k) + lines[k].len() + 2 <= joined(lines).len(),
        joined(lines).subrange(
            line_start(lines, k),
            line_start(lines, k) + lines[k].len() + 2,
        ) == lines[k] + seq![13u8, 10u8],
    decreases lines.len(),
{
    let at = line_start(lines, k);
    let shorter = lines.drop_last();
    let last = lines.last();
    if k == lines.len() - 1 {
        assert(lines.take(k) =~= shorter);
        assert(joined(lines).subrange(at, at + last.len() + 2) =~= last + seq![13u8, 10u8]);
    } else {
        line_is_in_place(shorter, k);
        assert(shorter.take(k) =~= lines.take(k));
        assert(joined(lines).subrange(at, at + lines[k].len() + 2) =~= joined(shorter).subrange(
            at,
            at + lines[k].len() + 2,
        ));
    }
}

/// A carriage return only ends a line.
proof fn returns_end_lines(lines: Seq<Seq<u8>>, i: int)
    requires
        are_lines(lines),
        0 <= i < joined(lines).len(),
        joined(lines)[i] == 13,
    ensures
        exists|k: int|
            0 <= k < lines.len() && i == #[trigger] line_start(lines, k) + lines[k].len(),
    decreases lines.len(),
{
    let shorter = lines.drop_last();
    let last = lines.last();
    let m = lines.len() - 1;
    assert(lines.take(m) =~= shorter);
    if i < joined(shorter).len() {
        assert(are_lines(shorter)) by {
            assert forall|k: int| 0 <= k < shorter.len() implies (#[trigger] shorter[k]).len() > 0
                && !shorter[k].contains(13) by {
                assert(shorter[k] == lines[k]);
            }
        }
        returns_end_lines(shorter, i);
        let k = choose|k: int|
            0 <= k < shorter.len() && i == #[trigger] line_start(shorter, k) + shorter[k].len();
        assert(shorter.take(k) =~= lines.take(k));
        assert(i == line_start(lines, k) + lines[k].len());
    } else {
        let j = i - joined(shorter).len();
        if j < last.len() {
            assert(joined(lines)[i] == last[j]);
            assert(lines[m].contains(13));
        } else {
            assert(i == line_start(lines, m) + lines[m].len());
        }
    }
}

/// The bytes of a head, as far as a line and what follows it are concerned.
proof fn line_bytes(lines: Seq<Seq<u8>>, k: int)
    requires
        0 <= k < lines.len(),
    ensures
        ({
            let head = head_of(lines);
            let at = line_start(lines, k);
            let n = lines[k].len();
            &&& 0 <= at && at + n + 4 <= head.len()
            &&& forall|j: int| 0 <= j < n ==> #[trigger] head[at + j] == lines[k][j]
            &&& head[at + n] == 13
            &&& head[at + n + 1] == 10
            &&& head.subrange(at, at + n + 2) == lines[k] + seq![13u8, 10u8]
        }),
{
    line_is_in_place(lines, k);
    let head = head_of(lines);
    let at = line_start(lines, k);
    let n = lines[k].len() as int;
    let part = joined(lines).subrange(at, at + n + 2);
    assert(head.subrange(at, at + n + 2) =~= part);
    assert forall|j: int| 0 <= j < n implies #[trigger] head[at + j] == lines[k][j] by {
        assert(part[j] == lines[k][j]);
    }
    assert(part[n] == 13 && part[n + 1] == 10);
}

/// The empty line that ends a head is its only one.
proof fn only_the_end_is_empty(lines: Seq<Seq<u8>>, body: Seq<u8>)
    requires
        are_lines(lines),
        lines.len() > 0,
    ensures
        head_len(head_of(lines) + body) == Some(head_of(lines).len() as int),
        (head_of(lines) + body).take(head_of(lines).len() as int) == head_of(lines),
        (head_of(lines) + body).skip(head_of(lines).len() as int) == body,
{
    let head = head_of(lines);
    let data = head + body;
    let n = head.len() as int;
    let last = lines.len() - 1;
    line_bytes(lines, last);
    line_starts_add_up(lines, last);
    assert(data.take(n) =~= head);
    assert(data.skip(n) =~= body);
    assert(blank_line_at(data, n - 4)) by {
        let at = line_start(lines, last) + lines[last].len();
        assert(at == n - 4);
        assert(data[n - 4] == head[n - 4] && data[n - 3] == head[n - 3]);
        assert(data[n - 2] == 13 && data[n - 1] == 10);
    }
    assert forall|i: int| i < n - 4 implies !#[trigger] blank_line_at(data, i) by {
        if blank_line_at(data, i) {
            assert(joined(lines)[i] == 13);
            returns_end_lines(lines, i);
            let k = choose|k: int|
                0 <= k < lines.len() && i == #[trigger] line_start(lines, k) + lines[k].len();
            line_starts_add_up(lines, k);
            if k < last {
                line_bytes(lines, k + 1);
                assert(data[i + 2] == head[line_start(lines, k + 1) + 0]);
                assert(lines[k + 1][0] == 13);
                assert(lines[k + 1].contains(13));
            }
        }
    }
    assert(head_ends_at(data, n));
    head_end_is_unique(data);
}

/// A field that gives a length begins a line.
#[verifier::spinoff_prover]
proof fn length_fields_are_lines(lines: Seq<Seq<u8>>, i: int)
    requires
        are_lines(lines),
        length_field_at(head_of(lines), i),
    ensures
        exists|k: int|
            0 < k < lines.len() && i == #[trigger] line_start(lines, k) - 2 && names_the_length(
                lines[k],
            ),
{
    reveal_strlit("content-length:");
    let head = head_of(lines);
    let name = ascii("content-length:"@);
    assert(i < joined(lines).len());
    returns_end_lines(lines, i);
    let k = choose|k: int|
        0 <= k < lines.len() && i == #[trigger] line_start(lines, k) + lines[k].len();
    line_starts_add_up(lines, k);
    let next = line_start(lines, k + 1);
    assert(next == i + 2);
    assert(forall|j: int| 0 <= j < 15 ==> lower_case(#[trigger] head[i + 2 + j]) == name[j]);
    assert(lower_case(head[i + 2 + 0]) == 99);
    if k + 1 == lines.len() {
        assert(head[i + 2] == 13);
    } else {
        line_bytes(lines, k + 1);
        let line = lines[k + 1];
        if line.len() < 15 {
            assert(head[i + 2 + line.len()] == 13);
            assert(name[line.len() as int] != 13);
        } else {
            assert forall|j: int| 0 <= j < 15 implies lower_case(#[trigger] line[j]) == name[j] by {
                assert(head[next + j] == line[j]);
                assert(head[i + 2 + j] == line[j]);
            }
            spelled_in_any_case(line);
        }
    }
}

/// Being spelled in any letter case, and being spelled in lower case after capitals were made small,
/// is the same.
proof fn spelled_in_any_case(line: Seq<u8>)
    requires
        line.len() >= 15,
    ensures
        names_the_length(line) <==> forall|j: int|
            0 <= j < 15 ==> lower_case(#[trigger] line[j]) == ascii("content-length:"@)[j],
{
    reveal_strlit("content-length:");
    let name = ascii("content-length:"@);
    if forall|j: int| 0 <= j < 15 ==> lower_case(#[trigger] line[j]) == name[j] {
        assert(lower_case(line[0]) == name[0] && lower_case(line[1]) == name[1] && lower_case(
            line[2],
        ) == name[2] && lower_case(line[3]) == name[3] && lower_case(line[4]) == name[4]);
        assert(lower_case(line[5]) == name[5] && lower_case(line[6]) == name[6] && lower_case(
            line[7],
        ) == name[7] && lower_case(line[8]) == name[8] && lower_case(line[9]) == name[9]);
        assert(lower_case(line[10]) == name[10] && lower_case(line[11]) == name[11] && lower_case(
            line[12],
        ) == name[12] && lower_case(line[13]) == name[13] && lower_case(line[14]) == name[14]);
    }
}

/// A line that names the length is a field of it, unless it is the first line.
proof fn lines_are_length_fields(lines: Seq<Seq<u8>>, k: int)
    requires
        are_lines(lines),
        0 < k < lines.len(),
        names_the_length(lines[k]),
    ensures
        length_field_at(head_of(lines), line_start(lines, k) - 2),
{
    reveal_strlit("content-length:");
    let head = head_of(lines);
    let i = line_start(lines, k) - 2;
    line_bytes(lines, k);
    line_bytes(lines, k - 1);
    line_starts_add_up(lines, k - 1);
    spelled_in_any_case(lines[k]);
    assert forall|j: int| 0 <= j < 15 implies lower_case(#[trigger] head[i + 2 + j]) == ascii(
        "content-length:"@,
    )[j] by {
        assert(head[line_start(lines, k) + j] == lines[k][j]);
    }
}

proof fn blanks_are_skipped(s: Seq<u8>, blanks: nat)
    requires
        blanks < s.len(),
        forall|i: int| 0 <= i < blanks ==> s[i] == 32 || s[i] == 9,
        s[blanks as int] != 32 && s[blanks as int] != 9,
    ensures
        skip_blanks(s) == s.skip(blanks as int),
    decreases blanks,
{
    if blanks > 0 {
        let rest = s.skip(1);
        assert(forall|i: int| 0 <= i < blanks - 1 ==> rest[i] == s[i + 1]);
        blanks_are_skipped(rest, (blanks - 1) as nat);
        assert(s.skip(1).skip(blanks - 1) =~= s.skip(blanks as int));
    } else {
        assert(s.skip(0) =~= s);
    }
}

/// Digits before something that is none are all the digits at the front.
proof fn run_of_digits(s: Seq<u8>, n: nat)
    requires
        n < s.len(),
        forall|i: int| 0 <= i < n ==> 48 <= #[trigger] s[i] <= 57,
        !(48 <= s[n as int] <= 57),
    ensures
        digit_run(s) == n,
    decreases n,
{
    if n > 0 {
        let rest = s.skip(1);
        assert(forall|i: int| 0 <= i < n - 1 ==> rest[i] == s[i + 1]);
        run_of_digits(rest, (n - 1) as nat);
    }
}

/// A number written in decimal is read back.
pub proof fn written_number_is_read_back(n: nat)
    ensures
        number_in(decimal_bytes(n)) == n,
        decimal_bytes(n).len() > 0,
        forall|i: int|
            0 <= i < decimal_bytes(n).len() ==> 48 <= #[trigger] decimal_bytes(n)[i] <= 57,
    decreases n,
{
    digits_bounds(n);
    let d = decimal_bytes(n);
    if n >= 10 {
        written_number_is_read_back(n / 10);
        assert(d.drop_last() =~= decimal_bytes(n / 10));
        assert(d.last() == 48 + n % 10);
    } else {
        assert(d.drop_last() =~= Seq::<u8>::empty());
        assert(number_in(Seq::<u8>::empty()) == 0);
        assert(d.last() == 48 + n);
    }
}

/// The length of the body is what the one line says that gives it, wherever that line stands behind
/// the request line, whatever the other lines are, and in whatever letter case it is written.
#[verifier::spinoff_prover]
pub proof fn declared_length_is_read(lines: Seq<Seq<u8>>, k: int, blanks: nat, n: nat)
    requires
        are_lines(lines),
        0 < k < lines.len(),
        gives_length(lines[k], blanks, n),
        forall|j: int| 0 < j < lines.len() && j != k ==> !names_the_length(#[trigger] lines[j]),
    ensures
        declared_length(head_of(lines)) == Some(n),
{
    let head = head_of(lines);
    let i = line_start(lines, k) - 2;
    lines_are_length_fields(lines, k);
    assert forall|j: int| length_field_at(head, j) implies j == i by {
        length_fields_are_lines(lines, j);
        let m = choose|m: int|
            0 < m < lines.len() && j == #[trigger] line_start(lines, m) - 2 && names_the_length(
                lines[m],
            );
        assert(m == k);
    }
    assert(first_length_field(head, i));
    let chosen = choose|i: int| first_length_field(head, i);
    assert(chosen == i);
    let line = lines[k];
    let rest = head.skip(i + 17);
    line_bytes(lines, k);
    written_number_is_read_back(n);
    let at = line_start(lines, k);
    let value = decimal_bytes(n);
    let tail = line.skip((15 + blanks) as int);
    assert forall|j: int| 0 <= j < line.len() - 15 implies #[trigger] rest[j] == line[15 + j] by {
        assert(head[at + (15 + j)] == line[15 + j]);
    }
    assert(forall|j: int| 0 <= j < value.len() ==> line[15 + blanks + j] == tail[j]);
    assert(rest[blanks as int] == value[0]);
    blanks_are_skipped(rest, blanks);
    let number = rest.skip(blanks as int);
    assert forall|j: int| 0 <= j < value.len() implies #[trigger] number[j] == value[j] by {
        assert(rest[blanks + j] == line[15 + (blanks + j)]);
    }
    assert(number[value.len() as int] == head[at + line.len()]);
    run_of_digits(number, value.len());
    assert(number.take(value.len() as int) =~= value);
}

/// Whether a request line asks to post to the root.
pub open spec fn posts_to_the_root(line: Seq<u8>) -> bool {
    line.len() >= 7 && line.take(7) == seq![80u8, 79u8, 83u8, 84u8, 32u8, 47u8, 32u8]
}

/// A post is answered when its body is complete, and not before: while fewer bytes have come than its
/// length says nothing is sent back, and then exactly that many bytes are, whatever follows them.
#[verifier::spinoff_prover]
pub proof fn post_waits_for_its_body(
    lines: Seq<Seq<u8>>,
    k: int,
    blanks: nat,
    n: nat,
    body: Seq<u8>,
    unix_secs: u64,
)
    requires
        are_lines(lines),
        0 < k < lines.len(),
        posts_to_the_root(lines[0]),
        gives_length(lines[k], blanks, n),
        forall|j: int| 0 < j < lines.len() && j != k ==> !names_the_length(#[trigger] lines[j]),
    ensures
        body.len() < n ==> reply(head_of(lines) + body, unix_secs) is None,
        body.len() >= n ==> reply(head_of(lines) + body, unix_secs) == Some(
            http_response("200 OK"@, body.take(n as int)),
        ),
{
    let head = head_of(lines);
    let data = head + body;
    only_the_end_is_empty(lines, body);
    declared_length_is_read(lines, k, blanks, n);
    request_line_decides(lines, body);
    reveal_strlit("POST ");
    reveal_strlit("POST / ");
    reveal_strlit("GET ");
    reveal_strlit("GET / ");
    reveal_strlit("GET /echo ");
    reveal_strlit("GET /time ");
    let start = lines[0].take(7);
    assert(forall|j: int| 0 <= j < 7 ==> data[j] == start[j]);
    assert(data.take(5) =~= ascii("POST "@));
    assert(data.take(7) =~= ascii("POST / "@));
    assert(data[0] == 80);
    assert(!begins(data, "GET / "@)) by {
        assert(ascii("GET / "@)[0] == 71);
    }
    assert(!begins(data, "GET /echo "@)) by {
        assert(ascii("GET /echo "@)[0] == 71);
    }
    assert(!begins(data, "GET /time "@)) by {
        assert(ascii("GET /time "@)[0] == 71);
    }
    if body.len() >= n {
        let m = head.len() as int;
        assert(body_of(data, m) =~= body.take(n as int));
    }
}

/// A request begins with its request line.
proof fn request_line_decides(lines: Seq<Seq<u8>>, body: Seq<u8>)
    requires
        lines.len() > 0,
    ensures
        forall|j: int|
            0 <= j < lines[0].len() ==> #[trigger] (head_of(lines) + body)[j] == lines[0][j],
        (head_of(lines) + body).len() >= lines[0].len(),
{
    line_bytes(lines, 0);
    line_starts_add_up(lines, 0);
    let head = head_of(lines);
    assert forall|j: int| 0 <= j < lines[0].len() implies #[trigger] (head + body)[j]
        == lines[0][j] by {
        assert(head[line_start(lines, 0) + j] == lines[0][j]);
    }
}


/// Whether a line starts with `text`.
pub open spec fn starts(line: Seq<u8>, text: Seq<char>) -> bool {
    line.len() >= text.len() && line.take(text.len() as int) == ascii(text)
}

/// A request begins as its first line does.
proof fn begins_as_its_line(lines: Seq<Seq<u8>>, body: Seq<u8>, text: Seq<char>)
    requires
        lines.len() > 0,
        !ascii(text).contains(13),
    ensures
        begins(head_of(lines) + body, text) <==> starts(lines[0], text),
{
    let data = head_of(lines) + body;
    let line = lines[0];
    let n = text.len() as int;
    request_line_decides(lines, body);
    line_bytes(lines, 0);
    line_starts_add_up(lines, 0);
    assert(data[line.len() as int] == 13) by {
        assert(head_of(lines)[line_start(lines, 0) + line.len()] == 13);
    }
    if begins(data, text) {
        if line.len() < n {
            assert(data.take(n)[line.len() as int] == 13);
            assert(ascii(text)[line.len() as int] == 13);
        }
        assert(line.take(n) =~= data.take(n));
    }
    if starts(line, text) {
        assert(line.take(n) =~= data.take(n));
    }
}

proof fn routes_hold_no_return()
    ensures
        !ascii("GET "@).contains(13),
        !ascii("POST "@).contains(13),
        !ascii("HEAD "@).contains(13),
        !ascii("PUT "@).contains(13),
        !ascii("DELETE "@).contains(13),
        !ascii("GET / "@).contains(13),
        !ascii("GET /echo "@).contains(13),
        !ascii("GET /time "@).contains(13),
        !ascii("POST / "@).contains(13),
{
    reveal_strlit("GET ");
    reveal_strlit("POST ");
    reveal_strlit("HEAD ");
    reveal_strlit("PUT ");
    reveal_strlit("DELETE ");
    reveal_strlit("GET / ");
    reveal_strlit("GET /echo ");
    reveal_strlit("GET /time ");
    reveal_strlit("POST / ");
}

/// Whether a request line begins with a method.
pub open spec fn has_a_method(line: Seq<u8>) -> bool {
    starts(line, "GET "@) || starts(line, "POST "@) || starts(line, "HEAD "@) || starts(
        line,
        "PUT "@,
    ) || starts(line, "DELETE "@)
}

/// The routes, for any header lines and whatever follows them: the root greets, `/echo` gives the
/// head of the request back, `/time` the time, and any other request line with a method but that of
/// a post is not found.
#[verifier::spinoff_prover]
pub proof fn routes_answer(lines: Seq<Seq<u8>>, body: Seq<u8>, unix_secs: u64)
    requires
        are_lines(lines),
        lines.len() > 0,
    ensures
        ({
            let line = lines[0];
            let answer = reply(head_of(lines) + body, unix_secs);
            &&& starts(line, "GET / "@) ==> answer == Some(
                http_response("200 OK"@, ascii("Hello from Magnum-TCP!\r\n"@)),
            )
            &&& starts(line, "GET /echo "@) ==> answer == Some(
                http_response("200 OK"@, head_of(lines)),
            )
            &&& starts(line, "GET /time "@) ==> answer == Some(
                http_response("200 OK"@, decimal_bytes(unix_secs as nat) + seq![13u8, 10u8]),
            )
            &&& has_a_method(line) && !starts(line, "POST "@) && !starts(line, "GET / "@)
                && !starts(line, "GET /echo "@) && !starts(line, "GET /time "@) ==> answer == Some(
                http_response("404 Not Found"@, ascii("404 Not Found\r\n"@)),
            )
            &&& !has_a_method(line) ==> answer == Some(head_of(lines) + body)
        }),
{
    let data = head_of(lines) + body;
    routes_hold_no_return();
    only_the_end_is_empty(lines, body);
    begins_as_its_line(lines, body, "GET "@);
    begins_as_its_line(lines, body, "POST "@);
    begins_as_its_line(lines, body, "HEAD "@);
    begins_as_its_line(lines, body, "PUT "@);
    begins_as_its_line(lines, body, "DELETE "@);
    begins_as_its_line(lines, body, "GET / "@);
    begins_as_its_line(lines, body, "GET /echo "@);
    begins_as_its_line(lines, body, "GET /time "@);
    begins_as_its_line(lines, body, "POST / "@);
    routes_differ(data);
    reveal_strlit("\r\n");
    assert(ascii("\r\n"@) =~= seq![13u8, 10u8]);
}

/// No two routes are the same, and each is one of its method.
#[verifier::spinoff_prover]
proof fn routes_differ(data: Seq<u8>)
    ensures
        begins(data, "GET / "@) ==> begins(data, "GET "@) && !begins(data, "GET /echo "@) && !begins(
            data,
            "GET /time "@,
        ),
        begins(data, "GET /echo "@) ==> begins(data, "GET "@) && !begins(data, "GET /time "@),
        begins(data, "GET /time "@) ==> begins(data, "GET "@),
        begins(data, "POST / "@) ==> begins(data, "POST "@),
        begins(data, "GET "@) ==> !begins(data, "POST "@),
{
    reveal_strlit("GET ");
    reveal_strlit("POST ");
    reveal_strlit("GET / ");
    reveal_strlit("GET /echo ");
    reveal_strlit("GET /time ");
    reveal_strlit("POST / ");
    if begins(data, "GET / "@) {
        let t = data.take(6);
        assert(t[5] == 32 && data[5] == 32);
        assert(data.take(4) =~= ascii("GET "@)) by {
            assert(forall|i: int| 0 <= i < 4 ==> data[i] == t[i]);
        }
        if begins(data, "GET /echo "@) {
            assert(data.take(10)[5] == 101);
        }
        if begins(data, "GET /time "@) {
            assert(data.take(10)[5] == 116);
        }
    }
    if begins(data, "GET /echo "@) {
        let t = data.take(10);
        assert(data.take(4) =~= ascii("GET "@)) by {
            assert(forall|i: int| 0 <= i < 4 ==> data[i] == t[i]);
        }
        assert(t[5] == 101 && data[5] == 101);
        if begins(data, "GET /time "@) {
            assert(data.take(10)[5] == 116);
        }
    }
    if begins(data, "GET /time "@) {
        let t = data.take(10);
        assert(data.take(4) =~= ascii("GET "@)) by {
            assert(forall|i: int| 0 <= i < 4 ==> data[i] == t[i]);
        }
    }
    if begins(data, "POST / "@) {
        let t = data.take(7);
        assert(data.take(5) =~= ascii("POST "@)) by {
            assert(forall|i: int| 0 <= i < 5 ==> data[i] == t[i]);
        }
    }
    if begins(data, "GET "@) && begins(data, "POST "@) {
        assert(data.take(4)[0] == 71);
        assert(data.take(5)[0] == 80);
    }
}

/// A post to anywhere but the root is not found, once its body is there.
pub proof fn post_elsewhere_is_not_found(
    lines: Seq<Seq<u8>>,
    k: int,
    blanks: nat,
    n: nat,
    body: Seq<u8>,
    unix_secs: u64,
)
    requires
        are_lines(lines),
        0 < k < lines.len(),
        starts(lines[0], "POST "@),
        !starts(lines[0], "POST / "@),
        gives_length(lines[k], blanks, n),
        forall|j: int| 0 < j < lines.len() && j != k ==> !names_the_length(#[trigger] lines[j]),
        body.len() >= n,
    ensures
        reply(head_of(lines) + body, unix_secs) == Some(
            http_response("404 Not Found"@, ascii("404 Not Found\r\n"@)),
        ),
{
    let data = head_of(lines) + body;
    routes_hold_no_return();
    only_the_end_is_empty(lines, body);
    declared_length_is_read(lines, k, blanks, n);
    begins_as_its_line(lines, body, "POST "@);
    begins_as_its_line(lines, body, "POST / "@);
    begins_as_its_line(lines, body, "GET "@);
    routes_differ(data);
}

/// A post that does not say how long its body is gets back what came with its head.
pub proof fn post_without_length_is_answered_at_once(
    lines: Seq<Seq<u8>>,
    body: Seq<u8>,
    unix_secs: u64,
)
    requires
        are_lines(lines),
        lines.len() > 0,
        starts(lines[0], "POST / "@),
        forall|j: int| 0 < j < lines.len() ==> !names_the_length(#[trigger] lines[j]),
    ensures
        reply(head_of(lines) + body, unix_secs) == Some(http_response("200 OK"@, body)),
{
    let head = head_of(lines);
    let data = head + body;
    routes_hold_no_return();
    only_the_end_is_empty(lines, body);
    begins_as_its_line(lines, body, "POST "@);
    begins_as_its_line(lines, body, "POST / "@);
    begins_as_its_line(lines, body, "GET "@);
    routes_differ(data);
    assert forall|i: int| !first_length_field(head, i) by {
        if length_field_at(head, i) {
            length_fields_are_lines(lines, i);
        }
    }
    assert(declared_length(head) is None);
}

/// Nothing is answered while a request's head is not complete.
pub proof fn unfinished_head_is_not_answered(data: Seq<u8>, unix_secs: u64)
    requires
        is_http(data),
        forall|i: int|
            0 <= i && i + 4 <= data.len() ==> !(#[trigger] data[i] == 13 && data[i + 1] == 10
                && data[i + 2] == 13 && data[i + 3] == 10),
    ensures
        reply(data, unix_secs) is None,
{
    assert forall|i: int| !blank_line_at(data, i) by {
        if blank_line_at(data, i) {
            assert(data[i] == 13);
        }
    }
    head_end_is_unique(data);
}

/// Anyone can read a response: it has a status line, says how long its body is and that the connection
/// closes, and behind the head comes the body. What this server would read as the length of the body
/// is its length.
#[verifier::spinoff_prover]
pub proof fn responses_can_be_read(ok: bool, body: Seq<u8>)
    ensures
        ({
            let status = if ok {
                "200 OK"@
            } else {
                "404 Not Found"@
            };
            let r = http_response(status, body);
            let lines = response_lines(status, body.len());
            &&& r == head_of(lines) + body
            &&& are_lines(lines)
            &&& head_len(r) == Some(head_of(lines).len() as int)
            &&& declared_length(r.take(head_len(r)->0)) == Some(body.len())
            &&& r.skip(head_len(r)->0) == body
        }),
{
    let status = if ok {
        "200 OK"@
    } else {
        "404 Not Found"@
    };
    let n = body.len();
    let lines = response_lines(status, n);
    reveal_strlit("HTTP/1.1 ");
    reveal_strlit("200 OK");
    reveal_strlit("404 Not Found");
    reveal_strlit("Content-Type: text/plain");
    reveal_strlit("Content-Length: ");
    reveal_strlit("Connection: close");
    reveal_strlit("\r\nContent-Type: text/plain\r\nContent-Length: ");
    reveal_strlit("\r\nConnection: close\r\n\r\n");
    written_number_is_read_back(n);
    assert forall|k: int| 0 <= k < lines.len() implies (#[trigger] lines[k]).len() > 0
        && !lines[k].contains(13) by {
        if lines[k].contains(13) {
            let j = choose|j: int| 0 <= j < lines[k].len() && lines[k][j] == 13;
            assert(lines[k][j] == 13);
            if k == 2 && j >= 16 {
                assert(decimal_bytes(n)[j - 16] == 13);
            }
        }
    }
    four_lines(lines);
    let r = http_response(status, body);
    assert(r =~= head_of(lines) + body);
    only_the_end_is_empty(lines, body);
    let line = lines[2];
    assert(line.skip(16) =~= decimal_bytes(n));
    assert(gives_length(line, 1, n));
    assert(lines[1][8] == 84);
    assert(lines[3][3] == 110);
    declared_length_is_read(lines, 2, 1, n);
}

/// The lines of a response's head.
pub open spec fn response_lines(status: Seq<char>, n: nat) -> Seq<Seq<u8>> {
    seq![
        ascii("HTTP/1.1 "@) + ascii(status),
        ascii("Content-Type: text/plain"@),
        ascii("Content-Length: "@) + decimal_bytes(n),
        ascii("Connection: close"@),
    ]
}

proof fn four_lines(lines: Seq<Seq<u8>>)
    requires
        lines.len() == 4,
    ensures
        joined(lines) == lines[0] + seq![13u8, 10u8] + lines[1] + seq![13u8, 10u8] + lines[2] + seq![
            13u8,
            10u8,
        ] + lines[3] + seq![13u8, 10u8],
{
    reveal_with_fuel(joined, 5);
    let l3 = lines.drop_last();
    let l2 = l3.drop_last();
    let l1 = l2.drop_last();
    assert(l1.drop_last().len() == 0);
    assert(lines.last() == lines[3] && l3.last() == lines[2] && l2.last() == lines[1] && l1.last()
        == lines[0]);
    assert(joined(l1) =~= lines[0] + seq![13u8, 10u8]);
}


} // verus!
