//! Scenarios on the library's types and functions, called directly.
use quartz_cli::action::completion::{get_shell_by_name, Shell};
use quartz_cli::action::init;
use quartz_cli::action::send::{cookie_domain, follow};
use quartz_cli::cookie::{Cookie, CookieJar, Domain, PathAttr};
use quartz_cli::edit::temp_file;
use quartz_cli::endpoint::{Endpoint, EndpointHandle, MethodColor};
use quartz_cli::form::Form;
use quartz_cli::snippet::{Curl, Http};
use quartz_cli::tree::Tree;
use quartz_cli::validator;
use quartz_cli::{eq_pair, QuartzError};

#[test]
fn test_tree() {
    let mut tree = Tree::new(1);
    tree.root.add_child(2);
    tree.root.add_child(3);
    tree.root.children[0].add_child(4);
    tree.root.children[0].add_child(5);
    tree.root.children[1].add_child(6);
    tree.root.children[1].add_child(7);

    assert_eq!(tree.root.value, 1);
    assert_eq!(tree.root.children.len(), 2);
    assert_eq!(tree.root.children[0].value, 2);
    assert_eq!(tree.root.children[0].children.len(), 2);
    assert_eq!(tree.root.children[0].children[0].value, 4);
    assert_eq!(tree.root.children[0].children[1].value, 5);
    assert_eq!(tree.root.children[1].value, 3);
    assert_eq!(tree.root.children[1].children.len(), 2);
    assert_eq!(tree.root.children[1].children[0].value, 6);
    assert_eq!(tree.root.children[1].children[1].value, 7);
}

#[test]
fn jar_set_overwrite() {
    let mut jar = CookieJar::new();

    let _ = jar.set("example.com", "foo=bar");
    let _ = jar.set("example.com", "foo=baz");

    let found = jar.find_by_name("foo");
    assert_eq!(found.len(), 1);
    assert_eq!(found[0].value(), "baz");
}

#[test]
fn jar_set_same_name_different_domain() {
    let mut jar = CookieJar::new();

    let _ = jar.set("example.com", "mycookie=true");
    let _ = jar.set("httpbin.org", "mycookie=false");

    let cookies = jar.find_by_name("mycookie");
    assert_eq!(cookies.len(), 2);

    let cookie = cookies
        .iter()
        .find(|c| c.domain().matches("example.com"))
        .expect("did not find cookie");

    assert_eq!(cookie.value(), "true");

    let cookie = cookies
        .iter()
        .find(|c| c.domain().matches("httpbin.org"))
        .expect("did not find cookie");

    assert_eq!(cookie.value(), "false");
}

#[test]
fn domain_canonicalize_examples() {
    assert_eq!(Domain::canonicalize("www.example.com"), "www.example.com");
    assert_eq!(Domain::canonicalize("www.EXAMPLE.com"), "www.example.com");
    assert_eq!(Domain::canonicalize("www.example.com\n"), "www.example.com");
    assert_eq!(Domain::canonicalize(" www.example.com"), "www.example.com");
    assert_eq!(Domain::canonicalize("www....example..com"), "www.example.com");
}

#[test]
fn domain_matches_examples() {
    assert!(Domain::new(".example.com").matches("www.example.com"));
    assert!(Domain::new(".example.com").matches("example.com"));
    assert!(Domain::new("example.com").matches("www.example.com"));
    assert!(Domain::new("www.example.com").matches("example.com"));
    assert!(Domain::new("sub.sub.sub.example.com").matches("example.com"));

    assert!(!Domain::new("example.com").matches("anotherexample.com"));
    assert!(!Domain::new("www.example.com").matches("www2.example.com"));
    assert!(!Domain::new("www.example.com").matches("www.example.com.au"));
}

#[test]
fn domain_segments_from_top_level() {
    let domain = Domain::new("www.example.com");
    assert_eq!(domain.as_segments(), vec!["com", "example", "www"]);
}

#[test]
fn path_attr_examples() {
    assert_eq!(PathAttr::from("/").len(), 0);
    assert_eq!(PathAttr::from("invalid").len(), 0);
    assert_eq!(PathAttr::from("http://www.example.com").len(), 0);
    assert_eq!(PathAttr::from("/somepath").0, vec!["somepath".to_string()]);
    assert_eq!(PathAttr::from("http://www.example.com/somepath").0, vec!["somepath".to_string()]);

    assert!(PathAttr::from("/").matches("/"));
    assert!(PathAttr::from("/").matches("/some/nested/path"));
    assert!(PathAttr::from("/some").matches("/some/"));
    assert!(PathAttr::from("/some").matches("/some/nested/path"));

    assert!(!PathAttr::from("/somepath").matches("/some"));
    assert!(!PathAttr::from("/somepath").matches("/"));
    assert!(!PathAttr::from("/some/nested/path").matches("/"));
}

#[test]
fn cookie_builder_line() {
    let mut cookie = Cookie::builder();
    cookie.domain("httpbin.org");
    cookie.subdomains(true);
    cookie.name("mysecret");
    cookie.value("supersecretkey");
    cookie.path("/somepath");
    let cookie = cookie.build().ok().expect("cookie has a name and a domain");

    assert_eq!(cookie.to_string(), "httpbin.org\tTRUE\t/somepath\tFALSE\t0\tmysecret\tsupersecretkey");
}

#[test]
fn cookie_from_line() {
    let s = "httpbin.org\tFALSE\t/somepath\tTRUE\t0\tmycookie\tsecret";
    let cookie = Cookie::from_str(s).ok().expect("a well-formed line");

    assert_eq!(cookie.domain().as_str(), "httpbin.org");
    assert!(!cookie.subdomains());
    assert_eq!(cookie.path().to_string(), "/somepath");
    assert!(cookie.secure());
    assert_eq!(cookie.name(), "mycookie");
    assert_eq!(cookie.value(), "secret");
}

#[test]
fn cookie_line_round_trip() {
    let s = "example.com\tTRUE\t/a/b\tFALSE\t1700000000\tsession\tabc=def";
    let cookie = Cookie::from_str(s).ok().expect("a well-formed line");
    assert_eq!(cookie.to_string(), s);

    let again = Cookie::from_str(&cookie.to_string()).ok().expect("a written line reads back");
    assert_eq!(again.name(), "session");
    assert_eq!(again.value(), "abc=def");
    assert_eq!(again.expires_at(), 1700000000);
}

#[test]
fn cookie_line_too_short_is_refused() {
    assert!(Cookie::from_str("httpbin.org\tFALSE\t/\tTRUE\t0\tname").is_err());
}

#[test]
fn cookie_without_name_is_refused() {
    let mut cookie = Cookie::builder();
    cookie.domain("httpbin.org");
    cookie.value("v");
    assert!(cookie.build().is_err());
}

#[test]
fn cookie_expiry() {
    let s = "example.com\tFALSE\t/\tFALSE\t100\tname\tvalue";
    let cookie = Cookie::from_str(s).ok().expect("a well-formed line");
    assert!(cookie.expired_at(101));
    assert!(!cookie.expired_at(99));

    let never_set = Cookie::from_str("example.com\tFALSE\t/\tFALSE\t0\tname\tvalue").ok().unwrap();
    assert!(never_set.expired_at(1));
}

#[test]
fn jar_text_round_trip() {
    let mut jar = CookieJar::new();
    let _ = jar.set("example.com", "a=1");
    let _ = jar.set("httpbin.org", "b=2; Path=/x; Secure");
    let text = jar.to_string();

    let back = CookieJar::from_text(&text, "cookies");
    assert_eq!(back.len(), 2);
    assert_eq!(back.to_string(), text);
    assert_eq!(back.path(), "cookies");
}

#[test]
fn jar_remove_forgets() {
    let mut jar = CookieJar::new();
    let _ = jar.set("example.com", "a=1");
    let found = jar.find_by_name("a")[0].duplicate();
    assert!(jar.contains(&found));
    assert!(jar.remove(&found));
    assert!(!jar.contains(&found));
    assert_eq!(jar.len(), 0);
}

#[test]
fn form_round_trip() {
    let mut form = Form::new();
    form.insert("name=John");
    form.insert("greeting=hello\nworld");
    let boundary = form.boundary().to_string();
    assert!(boundary.starts_with("quartz"));
    assert_eq!(boundary.len(), 22);
    assert_eq!(form.content_type(), format!("multipart/form-data; boundary={}", boundary));

    let body = form.into_body();
    let (back, warning) = Form::from(&body).ok().expect("a written form reads back");
    assert!(warning.is_none());
    assert_eq!(back.boundary, boundary);
    assert_eq!(back.fields.len(), 2);
    assert_eq!(back.fields[0].name, "name");
    assert_eq!(back.fields[0].value, "John");
    assert_eq!(back.fields[1].name, "greeting");
    assert_eq!(back.fields[1].value, "hello\nworld");
}

#[test]
fn form_body_layout() {
    let mut form = Form::new();
    form.boundary = "quartzXYZ".to_string();
    form.insert("a=1");
    assert_eq!(
        form.into_body(),
        "\r\n--quartzXYZ\r\nContent-Disposition: form-data; name=\"a\"\r\n\r\n1\r\n--quartzXYZ--"
    );
}

#[test]
fn form_with_foreign_boundary_is_empty() {
    let (form, warning) = Form::from("--other\r\nContent-Disposition: form-data; name=\"a\"\r\n\r\n1\r\n--other--")
        .ok()
        .expect("a form with a foreign boundary reads as empty");
    assert_eq!(form.fields.len(), 0);
    assert!(form.boundary.starts_with("quartz"));
    assert_eq!(
        warning,
        Some("invalid form. Expected boundary to start with 'quartz' but got 'other'\n".to_string())
    );
}

#[test]
fn form_from_empty_text_is_refused() {
    assert!(Form::from("").is_err());
    assert!(Form::from("\n\n").is_err());
}

#[test]
fn generated_boundaries() {
    let b = Form::gen_boundary();
    assert_eq!(b.len(), 22);
    assert!(b.starts_with("quartz"));
    assert!(b[6..].chars().all(|c| c.is_ascii_alphanumeric()));
}

#[test]
fn boundaries_from_drawn_positions() {
    assert_eq!(Form::boundary_from(&vec![0; 16]), "quartzaaaaaaaaaaaaaaaa");
    let idxs = vec![25, 26, 51, 52, 61, 0, 1, 2, 3, 4, 5, 6, 7, 8, 9, 10];
    assert_eq!(Form::boundary_from(&idxs), "quartzzAZ09abcdefghijk");
}

#[test]
fn curl_short_options() {
    let mut endpoint = Endpoint::new("");
    endpoint.method = "POST".to_string();
    endpoint.headers.0.insert("Content-Type".to_string(), "application/json".to_string());
    let curl = Curl { long: false, multiline: false };
    assert_eq!(
        curl.render(&endpoint, "https://httpbin.org/post", Some("{\"a\":1}\n")),
        "curl -L 'https://httpbin.org/post' -X POST -H 'Content-Type: application/json' -d '{\"a\":1}'\n"
    );
}

#[test]
fn curl_long_multiline_options() {
    let mut endpoint = Endpoint::new("");
    endpoint.headers.0.insert("Accept".to_string(), "*/*".to_string());
    let curl = Curl { long: true, multiline: true };
    assert_eq!(
        curl.render(&endpoint, "https://httpbin.org/get", None),
        "curl --location 'https://httpbin.org/get' --request GET \\\n\t--header 'Accept: */*'"
    );
}

#[test]
fn http_response_text() {
    let headers = vec![("content-type".to_string(), "text/plain".to_string())];
    let http = Http::from_response("HTTP/1.1", "200 OK", &headers);
    assert_eq!(http.text(), "< HTTP/1.1 200 OK\n< content-type: text/plain\n<");
}

#[test]
fn init_plan_plain() {
    let plan = init::cmd(init::Args { directory: Some("proj".to_string()) }, false, false);
    assert_eq!(plan.quartz_dir, "proj/.quartz");
    assert_eq!(
        plan.dirs,
        vec![
            "proj/.quartz/endpoints",
            "proj/.quartz/user",
            "proj/.quartz/user/history",
            "proj/.quartz/user/state",
            "proj/.quartz/env",
            "proj/.quartz/env/default",
        ]
    );
    assert!(plan.gitignore.is_none());
    assert_eq!(plan.output, "");
}

#[test]
fn init_detects_git() {
    let plan = init::cmd(init::Args { directory: None }, true, false);
    assert_eq!(plan.quartz_dir, "./.quartz");
    let (path, text) = plan.gitignore.expect("a .gitignore to add to");
    assert_eq!(path, "./.gitignore");
    assert!(text.contains(".quartz/user"));
    assert_eq!(plan.output, "Git detected\nAdding user files to .gitignore\n");

    let coloured = init::cmd(init::Args { directory: None }, true, true);
    assert_eq!(coloured.output, "Git detected\nAdding user files to \u{1b}[32m.gitignore\u{1b}[0m\n");
}

#[test]
fn redirects() {
    let mut endpoint = Endpoint::new("");
    endpoint.url = "https://httpbin.org/redirect/1".to_string();

    assert_eq!(follow(&endpoint, false, 200, None).ok().unwrap(), None);
    assert_eq!(follow(&endpoint, true, 302, Some("/get")).ok().unwrap(), None);
    assert_eq!(
        follow(&endpoint, false, 302, Some("/get")).ok().unwrap(),
        Some("https://httpbin.org/get".to_string())
    );
    assert_eq!(
        follow(&endpoint, false, 301, Some("http://example.com/x")).ok().unwrap(),
        Some("http://example.com/x".to_string())
    );
    assert_eq!(
        follow(&endpoint, false, 307, None).ok().unwrap(),
        Some("https://httpbin.org/redirect/1".to_string())
    );
}

#[test]
fn cookie_domain_is_host() {
    let mut endpoint = Endpoint::new("");
    endpoint.url = "https://httpbin.org/cookies/set".to_string();
    assert_eq!(cookie_domain(&endpoint).ok().unwrap(), "httpbin.org");

    endpoint.url = "localhost:8080/path".to_string();
    assert_eq!(cookie_domain(&endpoint).ok().unwrap(), "localhost");
}

#[test]
fn full_url_adds_query_in_order() {
    let mut a = Endpoint::new("");
    a.url = "https://httpbin.org/get".to_string();
    a.query.0.insert("b".to_string(), "2".to_string());
    a.query.0.insert("a".to_string(), "1".to_string());

    let mut b = Endpoint::new("");
    b.url = "https://httpbin.org/get".to_string();
    b.query.0.insert("a".to_string(), "1".to_string());
    b.query.0.insert("b".to_string(), "2".to_string());

    assert_eq!(a.query_string(), "b=2&a=1");
    assert_eq!(b.query_string(), "a=1&b=2");
    assert_eq!(a.full_url().ok().unwrap(), "https://httpbin.org/get?b=2&a=1");

    let mut c = Endpoint::new("");
    c.url = "httpbin.org/get?x=0".to_string();
    c.query.0.insert("y".to_string(), "1".to_string());
    assert_eq!(c.full_url().ok().unwrap(), "http://httpbin.org/get?x=0&y=1");
}

#[test]
fn methods_have_their_colours() {
    let mut e = Endpoint::new("");
    assert_eq!(e.colored_method(), MethodColor::Blue);
    e.method = "DELETE".to_string();
    assert_eq!(e.colored_method(), MethodColor::Red);
    e.method = "PATCH".to_string();
    assert_eq!(e.colored_method(), MethodColor::Yellow);
    e.method = "CUSTOM".to_string();
    assert_eq!(e.colored_method(), MethodColor::White);
}

#[test]
fn query_string_keeps_parameter_order() {
    let mut e = Endpoint::new("");
    e.query.0.insert("v".to_string(), "9000".to_string());
    e.query.0.insert("fields".to_string(), "lorem,ipsum".to_string());
    assert_eq!(e.query_string(), "v=9000&fields=lorem,ipsum");

    e.query.0.insert("v".to_string(), "1".to_string());
    assert_eq!(e.query_string(), "v=1&fields=lorem,ipsum");
}

#[test]
fn handles() {
    let handle = EndpointHandle::from("users/create");
    assert_eq!(handle.path, vec!["users", "create"]);
    assert_eq!(handle.handle(), "users/create");
    assert_eq!(handle.depth(), 2);
    assert_eq!(EndpointHandle::from(&handle.handle()).path, handle.path);
}

#[test]
fn shells() {
    assert!(matches!(get_shell_by_name("bash"), Some(Shell::Bash)));
    assert!(matches!(get_shell_by_name("zsh"), Some(Shell::Zsh)));
    assert!(matches!(get_shell_by_name("fish"), Some(Shell::Fish)));
    assert!(get_shell_by_name("powershell9").is_none());
}

#[test]
fn key_value_pairs() {
    let (k, v) = eq_pair("name='John Doe'").expect("a pair");
    assert_eq!(k, "name");
    assert_eq!(v, "John Doe");
    let (k, v) = eq_pair("a=b=c").expect("a pair");
    assert_eq!(k, "a");
    assert_eq!(v, "b=c");
    assert!(eq_pair("no pair").is_none());
}

#[test]
fn temp_files_keep_extension() {
    let p = temp_file("/tmp", "/project/body.json", Some("json"));
    assert_eq!(p, "/tmp/user/EDIT.json");
}

#[test]
fn canonical_domains_stay_canonical() {
    for raw in [" WWW..Example.COM\n", "example.com", "..a...b..", "", "  "] {
        let once = Domain::canonicalize(raw);
        assert_eq!(Domain::canonicalize(&once), once);
    }
}

#[test]
fn domain_matching_is_symmetric() {
    let pairs = [("www.example.com", "example.com"), ("example.com", "anotherexample.com"), ("a.b.c", "x.b.c")];
    for (a, b) in pairs {
        assert_eq!(Domain::new(a).matches(b), Domain::new(b).matches(a));
    }
}

#[test]
fn validators() {
    assert!(validator::infallible("{ \"value\":").is_ok());
    assert!(validator::json("{ \"value\": 10 }").is_ok());
    assert!(validator::json("{ \"value\": 10, }").is_err());
    assert!(validator::toml("title = 'TOML Example'\n\n[owner]\nname = 'Lisa'\n").is_ok());
    assert!(validator::toml("title = \n").is_err());
}

#[test]
fn set_cookie_attributes() {
    let mut jar = CookieJar::new();
    // A `Set-Cookie` header is split at commas first, so a date with a weekday is refused.
    assert!(jar.set("example.com", "id=a3fWa; Expires=Wed, 21 Oct 2015 07:28:00 GMT").is_err());
    assert_eq!(jar.len(), 0);
    assert!(jar.set("example.com", "id=a3fWa; Expires=21 Oct 2015 07:28:00 GMT; Path=/docs; Secure").is_ok());
    let found = jar.find_by_name("id");
    assert_eq!(found.len(), 1);
    let c = found[0];
    assert_eq!(c.value(), "a3fWa");
    assert_eq!(c.expires_at(), 1_445_412_480_000_000);
    assert_eq!(c.path().to_string(), "/docs");
    // A flag attribute is matched untrimmed: ` Secure` is not `secure`.
    assert!(!c.secure());
    assert_eq!(c.domain().as_str(), "example.com");

    let mut jar = CookieJar::new();
    assert!(jar.set("example.com", "id=b;Secure").is_ok());
    assert!(jar.find_by_name("id")[0].secure());
}

#[test]
fn replacing_the_empty_text() {
    let mut handle = EndpointHandle::from("ab");
    handle.replace("", "-");
    assert_eq!(handle.handle(), "-a-b-");
    let mut handle = EndpointHandle::from("a/ab");
    handle.replace("a", "b");
    assert_eq!(handle.handle(), "b/bb");
}

#[test]
fn variables_file_round_trip() {
    use_variables_round_trip();
}

fn use_variables_round_trip() {
    let mut vars = quartz_cli::context::Variables::new();
    vars.0.insert("BASE_URL".to_string(), "https://httpbin.org".to_string());
    vars.0.insert("token".to_string(), "a=b".to_string());
    let text = vars.to_text();
    assert_eq!(text, "BASE_URL=https://httpbin.org\ntoken=a=b\n");
    let back = quartz_cli::context::Variables::parse(&text);
    assert_eq!(back.0.len(), 2);
    assert_eq!(back.0.get("BASE_URL").map(|s| s.as_str()), Some("https://httpbin.org"));
    assert_eq!(back.0.get("token").map(|s| s.as_str()), Some("a=b"));
    assert_eq!(back.to_text(), text);
}
