//! Who may use the web console.

use vstd::prelude::*;
use crate::error::OpsError;
use crate::text;

verus! {

/// The first text that is there and not empty.
pub open spec fn first_given(a: Option<Seq<char>>, b: Option<Seq<char>>) -> Option<Seq<char>> {
    if crate::config::given(a) {
        a
    } else if crate::config::given(b) {
        b
    } else {
        None
    }
}

/// Whether neither the command line nor the environment gives a token, so that the stored one is
/// needed.
pub fn needs_stored_token(override_token: &Option<String>, env_token: &Option<String>) -> (r: bool)
    ensures
        r == (first_given(text::opt_view(*override_token), text::opt_view(*env_token)) is None),
{
    let from_arg = match override_token {
        Some(t) => !t.as_str().is_empty(),
        None => false,
    };
    let from_env = match env_token {
        Some(t) => !t.as_str().is_empty(),
        None => false,
    };
    !from_arg && !from_env
}

/// The access token: that of the command line, else that of the environment, else the stored one.
/// An empty one counts as none.
pub fn resolve_token(
    override_token: Option<String>,
    env_token: Option<String>,
    stored_token: Option<String>,
) -> (r: Result<String, OpsError>)
    ensures
        match first_given(text::opt_view(override_token), text::opt_view(env_token)) {
            Some(t) => r matches Ok(s) && s@ == t,
            None => match r {
                Ok(s) => text::opt_view(stored_token) == Some(s@) && s@.len() > 0,
                Err(e) => !crate::config::given(text::opt_view(stored_token)) && e@
                    == "无法确定访问令牌（serve.yml 为空且无环境变量）"@,
            },
        },
{
    if let Some(t) = override_token {
        if !t.as_str().is_empty() {
            return Ok(t);
        }
    }
    if let Some(t) = env_token {
        if !t.as_str().is_empty() {
            return Ok(t);
        }
    }
    if let Some(t) = stored_token {
        if !t.as_str().is_empty() {
            return Ok(t);
        }
    }
    Err(OpsError::new("无法确定访问令牌（serve.yml 为空且无环境变量）".to_owned()))
}

/// Compares the token of a request with the one that is expected.
#[derive(Debug)]
pub struct TokenValidator {
    expected: String,
}

impl View for TokenValidator {
    type V = Seq<char>;

    closed spec fn view(&self) -> Seq<char> {
        self.expected@
    }
}

/// The token that a request carries in its address: what follows `token=` in the first piece that
/// begins with it.
pub open spec fn token_in(pieces: Seq<Seq<char>>) -> Option<Seq<char>>
    decreases pieces.len(),
{
    if pieces.len() == 0 {
        None
    } else {
        match text::strip_prefix(pieces[0], "token="@) {
            Some(t) => Some(t),
            None => token_in(pieces.drop_first()),
        }
    }
}

/// The token of a query, empty where it has none.
pub open spec fn query_token(query: Option<Seq<char>>) -> Seq<char> {
    match query {
        Some(q) => match token_in(text::split(q, '&')) {
            Some(t) => t,
            None => ""@,
        },
        None => ""@,
    }
}

/// What everyone may see: the page, what it loads, and the login.
pub open spec fn open_path(path: Seq<char>) -> bool {
    path == "/"@ || text::starts_with(path, "/static/"@) || path == "/api/login"@
}

/// Whether a header carries the token.
pub open spec fn header_carries(header: Seq<char>, token: Seq<char>) -> bool {
    text::strip_prefix(header, "Bearer "@) == Some(token)
}

/// Whether the request is let in: to what everyone may see, with the token in its header, or for
/// the stream of the current task with the token in its address.
pub open spec fn let_in(
    token: Seq<char>,
    path: Seq<char>,
    header: Option<Seq<char>>,
    query: Option<Seq<char>>,
) -> bool {
    ||| open_path(path)
    ||| header_carries(
        match header {
            Some(h) => h,
            None => ""@,
        },
        token,
    )
    ||| path == "/api/tasks/current/stream"@ && query_token(query) == token
}

/// The token of a query.
fn find_query_token(query: Option<&str>) -> (r: String)
    ensures
        r@ == query_token(text::opt_str_view(query)),
{
    match query {
        Some(q) => {
            let pieces = text::split_text(q, '&');
            let ghost all = text::views(pieces@);
            let mut i: usize = 0;
            assert(all.skip(0) =~= all);
            while i < pieces.len()
                invariant
                    i <= pieces.len(),
                    all == text::views(pieces@),
                    all == text::split(q@, '&'),
                    query == Some(q),
                    token_in(all) == token_in(all.skip(i as int)),
                decreases pieces.len() - i,
            {
                assert(all.skip(i as int)[0] == pieces@[i as int]@);
                if let Some(t) = text::text_strip_prefix(pieces[i].as_str(), "token=") {
                    return t;
                }
                assert(all.skip(i as int).drop_first() =~= all.skip(i + 1));
                i = i + 1;
            }
            "".to_owned()
        },
        None => "".to_owned(),
    }
}

/// Whether the two texts are the same, found by going over all bytes of the first one.
fn same_in_full(a: &str, b: &str) -> (r: bool)
    ensures
        r == (a@ == b@),
{
    let x = a.as_bytes();
    let y = b.as_bytes();
    let mut differing: u8 = if x.len() == y.len() {
        0
    } else {
        1
    };
    let mut i: usize = 0;
    while i < x.len()
        invariant
            i <= x.len(),
            x@.len() != y@.len() ==> differing != 0,
            x@.len() == y@.len() ==> (differing == 0 <==> forall|k: int|
                0 <= k < i ==> x@[k] == y@[k]),
        decreases x.len() - i,
    {
        let p: u8 = x[i];
        let q: u8 = if i < y.len() {
            y[i]
        } else {
            0
        };
        let before: u8 = differing;
        differing = before | (p ^ q);
        assert(before | (p ^ q) == 0 <==> before == 0 && p == q) by (bit_vector);
        i = i + 1;
    }
    proof {
        vstd::utf8::encode_utf8_decode_utf8(a@);
        vstd::utf8::encode_utf8_decode_utf8(b@);
        if differing == 0 {
            assert(x@ =~= y@);
        }
    }
    differing == 0
}

impl TokenValidator {
    /// Expects the token.
    pub fn new(expected: &str) -> (v: TokenValidator)
        ensures
            v@ == expected@,
    {
        TokenValidator { expected: expected.to_owned() }
    }

    /// Whether the token is there and is the expected one. All bytes of what was provided are looked
    /// at, wherever it differs.
    pub fn verify(&self, provided: Option<&str>) -> (r: bool)
        ensures
            r == (text::opt_str_view(provided) == Some(self@)),
    {
        match provided {
            Some(p) => same_in_full(p, self.expected.as_str()),
            None => false,
        }
    }

    /// Whether the header carries the expected token, behind `Bearer` and a space.
    pub fn verify_header(&self, header: &str) -> (r: bool)
        ensures
            r == header_carries(header@, self@),
    {
        match text::text_strip_prefix(header, "Bearer ") {
            Some(t) => self.verify(Some(t.as_str())),
            None => self.verify(None),
        }
    }

    /// Whether the token is the expected one.
    pub fn verify_query(&self, token: &str) -> (r: bool)
        ensures
            r == (token@ == self@),
    {
        self.verify(Some(token))
    }

    /// Whether the request is let in.
    pub fn authorize(&self, path: &str, header: Option<&str>, query: Option<&str>) -> (r: bool)
        ensures
            r == let_in(self@, path@, text::opt_str_view(header), text::opt_str_view(query)),
    {
        if text::same(path, "/") || text::text_starts_with(path, "/static/") || text::same(
            path,
            "/api/login",
        ) {
            return true;
        }
        let h = match header {
            Some(h) => h,
            None => "",
        };
        if self.verify_header(h) {
            return true;
        }
        if !text::same(path, "/api/tasks/current/stream") {
            return false;
        }
        let t = find_query_token(query);
        self.verify_query(t.as_str())
    }
}

/// Without the token in its header, a request is let in only to what everyone may see and to the
/// stream of the current task.
pub proof fn law_token_guards(
    token: Seq<char>,
    path: Seq<char>,
    header: Option<Seq<char>>,
    query: Option<Seq<char>>,
)
    requires
        !open_path(path),
        path != "/api/tasks/current/stream"@,
        header matches Some(h) ==> !header_carries(h, token),
    ensures
        !let_in(token, path, header, query),
{
    reveal_strlit("");
    reveal_strlit("Bearer ");
    assert(text::strip_prefix(""@, "Bearer "@) is None);
}

} // verus!
