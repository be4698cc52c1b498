//! The HTTP check: the URL it starts from, and the decisions it takes on each response
//! while it follows redirects by hand.
use vstd::prelude::*;
use crate::text::{
    chars_of, opt_view, starts_with, starts_with_str, string_from, trim_end_char,
    trim_end_matches, trim_start_char, trim_start_matches,
};

verus! {

/// The URL that the check starts from: `url` itself when it names `http://` or
/// `https://`, and `https://` followed by `url` otherwise.
pub open spec fn start_url_spec(url: Seq<char>) -> Seq<char> {
    if starts_with(url, "http://"@) || starts_with(url, "https://"@) {
        url
    } else {
        "https://"@ + url
    }
}

/// The URL that the check starts from.
pub fn start_url(url: &str) -> (r: String)
    ensures
        r@ == start_url_spec(url@),
{
    let v = chars_of(url);
    if starts_with_str(&v, "http://") || starts_with_str(&v, "https://") {
        url.to_owned()
    } else {
        let mut r = "https://".to_owned();
        r.append(url);
        r
    }
}

/// Where a redirect leads: an absolute location (one that starts with `http`) as it is, and
/// a relative one joined to the current URL with exactly one `/` between them.
pub open spec fn redirect_target_spec(current: Seq<char>, location: Seq<char>) -> Seq<char> {
    if starts_with(location, "http"@) {
        location
    } else {
        trim_end_matches(current, '/') + "/"@ + trim_start_matches(location, '/')
    }
}

/// Where a redirect from `current` to `location` leads.
pub fn redirect_target(current: &str, location: &str) -> (r: String)
    ensures
        r@ == redirect_target_spec(current@, location@),
{
    let loc = chars_of(location);
    if starts_with_str(&loc, "http") {
        location.to_owned()
    } else {
        let base = trim_end_char(&chars_of(current), '/');
        let rest = trim_start_char(&loc, '/');
        let mut r = string_from(&base);
        r.append("/");
        r.append(string_from(&rest).as_str());
        r
    }
}

/// A location that begins with the letters `http` (an `http://` or `https://` URL) is
/// followed as it is, whatever the current URL.
pub proof fn law_redirect_absolute(current: Seq<char>, location: Seq<char>)
    requires
        location.len() >= 4,
        location[0] == 'h',
        location[1] == 't',
        location[2] == 't',
        location[3] == 'p',
    ensures
        redirect_target_spec(current, location) == location,
{
    reveal_strlit("http");
    assert(location.subrange(0, 4) =~= "http"@);
}

/// A location that does not begin with `http` is a path: when neither the current URL ends
/// with `/` nor the location begins with one, the next URL is the current URL, one `/` and
/// the location.
pub proof fn law_redirect_relative(current: Seq<char>, location: Seq<char>)
    requires
        !(location.len() >= 4 && location[0] == 'h' && location[1] == 't' && location[2] == 't'
            && location[3] == 'p'),
        location.len() > 0 ==> location[0] != '/',
        current.len() > 0 ==> current.last() != '/',
    ensures
        redirect_target_spec(current, location) == current + "/"@ + location,
{
    reveal_strlit("http");
    if starts_with(location, "http"@) {
        assert(location.subrange(0, 4)[0] == 'h');
        assert(location.subrange(0, 4)[1] == 't');
        assert(location.subrange(0, 4)[2] == 't');
        assert(location.subrange(0, 4)[3] == 'p');
    }
    assert(trim_end_matches(current, '/') == current);
    assert(trim_start_matches(location, '/') == location);
}

/// For a path location, a `/` more at the end of the current URL, or at the start of the
/// location, leads to the same URL.
pub proof fn law_redirect_slashes(current: Seq<char>, location: Seq<char>)
    requires
        !starts_with(location, "http"@),
    ensures
        redirect_target_spec(current.push('/'), location) == redirect_target_spec(
            current,
            location,
        ),
        redirect_target_spec(current, seq!['/'] + location) == redirect_target_spec(
            current,
            location,
        ),
{
    reveal_strlit("http");
    assert(current.push('/').drop_last() =~= current);
    let l2 = seq!['/'] + location;
    assert(l2.drop_first() =~= location);
    assert(!starts_with(l2, "http"@)) by {
        if starts_with(l2, "http"@) {
            assert(l2.subrange(0, 4)[0] == 'h');
        }
    }
}

/// A response that redirected: the URL that gave it and its status.
pub struct RedirectStep {
    pub url: String,
    pub status: u16,
}

/// What the HTTP check reports.
pub struct HttpResult {
    pub final_url: String,
    pub status: u16,
    pub redirects: Vec<RedirectStep>,
    pub headers: Vec<(String, String)>,
    pub response_ms: u64,
    pub error: Option<String>,
}

/// The view of a redirect step.
pub open spec fn step_view(s: RedirectStep) -> (Seq<char>, u16) {
    (s.url@, s.status)
}

/// The views of redirect steps.
pub open spec fn steps_view(s: Seq<RedirectStep>) -> Seq<(Seq<char>, u16)> {
    s.map_values(|x: RedirectStep| step_view(x))
}

/// The most redirects that the check follows.
pub open spec fn max_redirects() -> nat {
    10
}

/// Whether every step of a chain is a redirect (a status from 300 to 399).
pub open spec fn steps_are_redirects(steps: Seq<(Seq<char>, u16)>) -> bool {
    forall|i: int| 0 <= i < steps.len() ==> 300 <= #[trigger] steps[i].1 < 400
}

/// What holds of every report of a check that started at `start`: at most ten steps, each
/// a redirect, the first from `start` (or, with no step, `start` as the final URL); a
/// success has the status of the last response, which is no redirect; an error has status 0
/// and no headers.
pub open spec fn http_result_law(res: HttpResult, start: Seq<char>) -> bool {
    let steps = steps_view(res.redirects@);
    &&& steps.len() <= max_redirects()
    &&& steps_are_redirects(steps)
    &&& if steps.len() == 0 {
        res.final_url@ == start
    } else {
        steps[0].0 == start
    }
    &&& res.error is None ==> (res.status != 0 && !(300 <= res.status < 400))
    &&& res.error is Some ==> (res.status == 0 && res.headers@.len() == 0)
}

/// A check under way: the URL to fetch next, the redirects met so far (fewer than ten, or
/// the check would have ended), and the URL that it started from.
pub struct HttpProbe {
    current: String,
    redirects: Vec<RedirectStep>,
    start: Ghost<Seq<char>>,
}

/// What the check does after a response.
pub enum HttpStep {
    /// Fetch the probe's new current URL.
    Follow(HttpProbe),
    /// The check is over.
    Done(HttpResult),
}

/// The report of a check that could not be set up: no request was sent.
pub fn http_setup_failed(start: String, error: String) -> (r: HttpResult)
    ensures
        r.final_url@ == start@,
        r.status == 0,
        r.redirects@.len() == 0,
        r.headers@.len() == 0,
        r.response_ms == 0,
        opt_view(r.error) == Some(error@),
        http_result_law(r, start@),
{
    let r = HttpResult {
        final_url: start,
        status: 0,
        redirects: Vec::new(),
        headers: Vec::new(),
        response_ms: 0,
        error: Some(error),
    };
    assert(steps_view(r.redirects@) =~= Seq::<(Seq<char>, u16)>::empty());
    r
}

impl HttpProbe {
    #[verifier::type_invariant]
    spec fn inv(self) -> bool {
        let steps = steps_view(self.redirects@);
        &&& steps.len() < max_redirects()
        &&& steps_are_redirects(steps)
        &&& if steps.len() == 0 {
            self.current@ == self.start@
        } else {
            steps[0].0 == self.start@
        }
    }

    /// The URL to fetch next.
    pub closed spec fn current_url(self) -> Seq<char> {
        self.current@
    }

    /// The redirects met so far, as URL and status.
    pub closed spec fn redirect_views(self) -> Seq<(Seq<char>, u16)> {
        steps_view(self.redirects@)
    }

    /// The URL that the check started from.
    pub closed spec fn start_url_of(self) -> Seq<char> {
        self.start@
    }

    /// A check that starts at `url` (see `start_url`): its first request goes there.
    pub fn new(url: &str) -> (p: HttpProbe)
        ensures
            p.current_url() == start_url_spec(url@),
            p.start_url_of() == start_url_spec(url@),
            p.redirect_views().len() == 0,
    {
        let current = start_url(url);
        let ghost g = current@;
        let p = HttpProbe { current, redirects: Vec::new(), start: Ghost(g) };
        assert(p.redirect_views() =~= Seq::<(Seq<char>, u16)>::empty());
        p
    }

    /// The URL to fetch next.
    pub fn current(&self) -> (r: &str)
        ensures
            r@ == self.current_url(),
    {
        self.current.as_str()
    }

    /// The next step after a response with `status` (an HTTP status code, from 100 to 999):
    /// for a redirect (300 to 399), the step is recorded and followed to `location` (the
    /// empty text when the response has none), unless the location is empty or ten
    /// redirects have been met, which ends the check with an error; any other status ends
    /// the check with that status and `headers`.
    pub fn on_response(
        self,
        status: u16,
        location: String,
        headers: Vec<(String, String)>,
        elapsed_ms: u64,
    ) -> (r: HttpStep)
        requires
            100 <= status <= 999,
        ensures
            300 <= status < 400 ==> ({
                let steps = self.redirect_views().push((self.current_url(), status));
                if location@.len() == 0 || steps.len() >= max_redirects() {
                    r matches HttpStep::Done(res) && res.final_url@ == self.current_url()
                        && res.status == 0 && steps_view(res.redirects@) == steps
                        && res.headers@.len() == 0 && res.response_ms == elapsed_ms && opt_view(
                        res.error,
                    ) == Some("Too many redirects or no final destination"@)
                } else {
                    r matches HttpStep::Follow(next) && next.current_url()
                        == redirect_target_spec(self.current_url(), location@)
                        && next.redirect_views() == steps
                }
            }),
            r matches HttpStep::Done(res) ==> http_result_law(res, self.start_url_of()),
            r matches HttpStep::Follow(next) ==> next.redirect_views().len()
                == self.redirect_views().len() + 1 < max_redirects() && next.start_url_of()
                == self.start_url_of(),
            !(300 <= status < 400) ==> (r matches HttpStep::Done(res) && res.final_url@
                == self.current_url() && res.status == status && steps_view(res.redirects@)
                == self.redirect_views() && res.headers@ == headers@ && res.response_ms
                == elapsed_ms && res.error is None),
    {
        proof {
            use_type_invariant(&self);
        }
        let HttpProbe { current, redirects, start } = self;
        let mut redirects = redirects;
        if 300 <= status && status < 400 {
            let ghost old = redirects@;
            let url = current.clone();
            redirects.push(RedirectStep { url, status });
            assert(steps_view(redirects@) =~= steps_view(old).push((current@, status)));
            if location.as_str().unicode_len() == 0 || redirects.len() >= 10 {
                return HttpStep::Done(
                    HttpResult {
                        final_url: current,
                        status: 0,
                        redirects,
                        headers: Vec::new(),
                        response_ms: elapsed_ms,
                        error: Some("Too many redirects or no final destination".to_owned()),
                    },
                );
            }
            let next = redirect_target(current.as_str(), location.as_str());
            HttpStep::Follow(HttpProbe { current: next, redirects, start })
        } else {
            HttpStep::Done(
                HttpResult {
                    final_url: current,
                    status,
                    redirects,
                    headers,
                    response_ms: elapsed_ms,
                    error: None,
                },
            )
        }
    }

    /// The report of a check whose request failed with `error`.
    pub fn on_error(self, error: String, elapsed_ms: u64) -> (r: HttpResult)
        ensures
            r.final_url@ == self.current_url(),
            r.status == 0,
            steps_view(r.redirects@) == self.redirect_views(),
            r.headers@.len() == 0,
            r.response_ms == elapsed_ms,
            opt_view(r.error) == Some(error@),
            http_result_law(r, self.start_url_of()),
    {
        proof {
            use_type_invariant(&self);
        }
        let HttpProbe { current, redirects, start } = self;
        HttpResult {
            final_url: current,
            status: 0,
            redirects,
            headers: Vec::new(),
            response_ms: elapsed_ms,
            error: Some(error),
        }
    }
}

} // verus!
