use netblame::http::{http_setup_failed, redirect_target, start_url, HttpProbe, HttpStep};

#[test]
fn start_urls() {
    assert_eq!(start_url("example.com"), "https://example.com");
    assert_eq!(start_url("http://example.com"), "http://example.com");
    assert_eq!(start_url("https://example.com/x"), "https://example.com/x");
}

#[test]
fn redirect_targets() {
    assert_eq!(redirect_target("https://a.com/", "https://b.com/"), "https://b.com/");
    assert_eq!(redirect_target("https://a.com/x/", "/login"), "https://a.com/x/login");
    assert_eq!(redirect_target("https://a.com", "login"), "https://a.com/login");
}

#[test]
fn follows_redirects_to_the_end() {
    let p = HttpProbe::new("example.com");
    assert_eq!(p.current(), "https://example.com");
    let p = match p.on_response(301, "https://www.example.com/".to_string(), vec![], 5) {
        HttpStep::Follow(p) => p,
        HttpStep::Done(_) => panic!("a redirect is followed"),
    };
    assert_eq!(p.current(), "https://www.example.com/");
    let headers = vec![("server".to_string(), "nginx".to_string())];
    match p.on_response(200, String::new(), headers.clone(), 42) {
        HttpStep::Done(r) => {
            assert_eq!(r.final_url, "https://www.example.com/");
            assert_eq!(r.status, 200);
            assert_eq!(r.redirects.len(), 1);
            assert_eq!((r.redirects[0].url.as_str(), r.redirects[0].status), ("https://example.com", 301));
            assert_eq!(r.headers, headers);
            assert_eq!(r.response_ms, 42);
            assert_eq!(r.error, None);
        }
        HttpStep::Follow(_) => panic!(),
    }
}

#[test]
fn stops_after_ten_redirects() {
    let mut p = HttpProbe::new("http://loop.test");
    let mut follows = 0;
    loop {
        match p.on_response(302, "/again".to_string(), vec![], 1) {
            HttpStep::Follow(next) => {
                follows += 1;
                p = next;
            }
            HttpStep::Done(r) => {
                assert_eq!(r.redirects.len(), 10);
                assert_eq!(r.status, 0);
                assert_eq!(r.error.as_deref(), Some("Too many redirects or no final destination"));
                break;
            }
        }
    }
    assert_eq!(follows, 9);
}

#[test]
fn redirect_without_location_ends() {
    let p = HttpProbe::new("a.com");
    match p.on_response(307, String::new(), vec![], 3) {
        HttpStep::Done(r) => {
            assert_eq!(r.final_url, "https://a.com");
            assert_eq!(r.redirects.len(), 1);
            assert_eq!(r.error.as_deref(), Some("Too many redirects or no final destination"));
        }
        HttpStep::Follow(_) => panic!(),
    }
}

#[test]
fn failures() {
    let p = HttpProbe::new("a.com");
    let r = p.on_error("connection refused".to_string(), 7);
    assert_eq!((r.final_url.as_str(), r.status, r.response_ms), ("https://a.com", 0, 7));
    assert_eq!(r.error.as_deref(), Some("connection refused"));
    let r = http_setup_failed("https://a.com".to_string(), "builder".to_string());
    assert_eq!(r.error.as_deref(), Some("builder"));
    assert_eq!(r.status, 0);
}
