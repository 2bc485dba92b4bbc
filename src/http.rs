use vstd::prelude::*;
use vstd::string::StringSliceAdditionalSpecFns;
use vstd::utf8::encode_utf8_decode_utf8;

verus! {

/// How a request line is answered.
#[derive(Debug, Clone, Copy, PartialEq, Eq, Structural)]
pub enum Route {
    /// The start page.
    Home,
    /// The start page, served after an artificial delay.
    SlowHome,
    /// Anything else: the not-found page.
    Missing,
}

pub open spec fn route_of(request_line: Seq<char>) -> Route {
    if request_line == "GET / HTTP/1.1"@ {
        Route::Home
    } else if request_line == "GET /sleep HTTP/1.1"@ {
        Route::SlowHome
    } else {
        Route::Missing
    }
}

/// The decimal digits of `n`, most significant first, as ASCII bytes.
pub open spec fn decimal(n: nat) -> Seq<u8>
    decreases n,
{
    if n < 10 {
        seq![(48 + n) as u8]
    } else {
        decimal(n / 10).push((48 + n % 10) as u8)
    }
}

/// A response: the status line, a `Content-Length` header giving the body's
/// length in bytes, an empty line, then the body.
pub open spec fn response_of(status_line: Seq<u8>, body: Seq<u8>) -> Seq<u8> {
    status_line + "\r\nContent-Length: ".spec_bytes() + decimal(body.len()) + "\r\n\r\n".spec_bytes()
        + body
}

impl Route {
    pub open spec fn spec_status_line(self) -> Seq<char> {
        match self {
            Route::Home | Route::SlowHome => "HTTP/1.1 200 OK"@,
            Route::Missing => "HTTP/1.1 404 NOT FOUND"@,
        }
    }

    pub open spec fn spec_filename(self) -> Seq<char> {
        match self {
            Route::Home | Route::SlowHome => "index.html"@,
            Route::Missing => "error.html"@,
        }
    }

    pub fn status_line(&self) -> (r: &'static str)
        ensures
            r@ == self.spec_status_line(),
    {
        match self {
            Route::Home | Route::SlowHome => "HTTP/1.1 200 OK",
            Route::Missing => "HTTP/1.1 404 NOT FOUND",
        }
    }

    /// The file whose contents make the body.
    pub fn filename(&self) -> (r: &'static str)
        ensures
            r@ == self.spec_filename(),
    {
        match self {
            Route::Home | Route::SlowHome => "index.html",
            Route::Missing => "error.html",
        }
    }

    /// Whether the answer is held back before it is sent.
    pub fn delays(&self) -> (r: bool)
        ensures
            r == (self == Route::SlowHome),
    {
        match self {
            Route::SlowHome => true,
            _ => false,
        }
    }
}

fn same_bytes(a: &[u8], b: &[u8]) -> (r: bool)
    ensures
        r == (a@ == b@),
{
    if a.len() != b.len() {
        return false;
    }
    let mut i: usize = 0;
    while i < a.len()
        invariant
            a@.len() == b@.len(),
            i <= a@.len(),
            forall|j: int| 0 <= j < i ==> a@[j] == b@[j],
        decreases a@.len() - i,
    {
        if a[i] != b[i] {
            return false;
        }
        i = i + 1;
    }
    assert(a@ =~= b@);
    true
}

fn same_text(a: &str, b: &str) -> (r: bool)
    ensures
        r == (a@ == b@),
{
    proof {
        encode_utf8_decode_utf8(a@);
        encode_utf8_decode_utf8(b@);
    }
    same_bytes(a.as_bytes(), b.as_bytes())
}

/// Picks the answer to a request line by exact match.
pub fn route(request_line: &str) -> (r: Route)
    ensures
        r == route_of(request_line@),
{
    if same_text(request_line, "GET / HTTP/1.1") {
        Route::Home
    } else if same_text(request_line, "GET /sleep HTTP/1.1") {
        Route::SlowHome
    } else {
        Route::Missing
    }
}

fn push_bytes(out: &mut Vec<u8>, b: &[u8])
    ensures
        final(out)@ == old(out)@ + b@,
{
    let mut i: usize = 0;
    while i < b.len()
        invariant
            i <= b@.len(),
            out@ == old(out)@ + b@.subrange(0, i as int),
        decreases b@.len() - i,
    {
        out.push(b[i]);
        i = i + 1;
        assert(out@ =~= old(out)@ + b@.subrange(0, i as int));
    }
    assert(b@.subrange(0, i as int) =~= b@);
}

fn push_decimal(out: &mut Vec<u8>, n: usize)
    ensures
        final(out)@ == old(out)@ + decimal(n as nat),
    decreases n,
{
    if n >= 10 {
        push_decimal(out, n / 10);
    }
    let d: u8 = (n % 10) as u8;
    out.push(48 + d);
    assert(out@ =~= old(out)@ + decimal(n as nat));
}

/// Frames `body` as the answer under `status_line`.
pub fn response(status_line: &str, body: &str) -> (r: Vec<u8>)
    ensures
        r@ == response_of(status_line.spec_bytes(), body.spec_bytes()),
{
    let mut out: Vec<u8> = Vec::new();
    push_bytes(&mut out, status_line.as_bytes());
    push_bytes(&mut out, "\r\nContent-Length: ".as_bytes());
    let content = body.as_bytes();
    push_decimal(&mut out, content.len());
    push_bytes(&mut out, "\r\n\r\n".as_bytes());
    push_bytes(&mut out, content);
    assert(out@ =~= response_of(status_line.spec_bytes(), body.spec_bytes()));
    out
}

} // verus!
