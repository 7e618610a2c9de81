//! Request snippets: the `curl` command line and the raw HTTP message of an
//! endpoint.
use vstd::prelude::*;

use crate::endpoint::Endpoint;
use crate::strmap::StrMap;
use crate::text::{owned, push_char, push_str, chars_of, string_of_range, ends_with_str};

verus! {

/// The options a `curl` command line uses.
pub enum CurlOption {
    Location,
    Request,
    Header,
    Data,
}

/// How to write a `curl` command line.
pub struct Curl {
    /// Use long form cURL options (--header instead of -H)
    pub long: bool,
    /// Split output across multiple lines
    pub multiline: bool,
}

/// How an option is written, in long or short form.
pub open spec fn option_text(long: bool, option: CurlOption) -> Seq<char> {
    match option {
        CurlOption::Location => if long {
            seq!['-', '-', 'l', 'o', 'c', 'a', 't', 'i', 'o', 'n']
        } else {
            seq!['-', 'L']
        },
        CurlOption::Request => if long {
            seq!['-', '-', 'r', 'e', 'q', 'u', 'e', 's', 't']
        } else {
            seq!['-', 'X']
        },
        CurlOption::Header => if long {
            seq!['-', '-', 'h', 'e', 'a', 'd', 'e', 'r']
        } else {
            seq!['-', 'H']
        },
        CurlOption::Data => if long {
            seq!['-', '-', 'd', 'a', 't', 'a']
        } else {
            seq!['-', 'd']
        },
    }
}

/// The header options of a `curl` command line, each after `sep`.
pub open spec fn curl_headers(ps: Seq<(Seq<char>, Seq<char>)>, sep: Seq<char>, opt: Seq<char>) -> Seq<
    char,
>
    decreases ps.len(),
{
    if ps.len() == 0 {
        Seq::empty()
    } else {
        curl_headers(ps.drop_last(), sep, opt) + sep + opt + seq![' ', '\''] + ps.last().0 + seq![
            ':',
            ' ',
        ] + ps.last().1 + seq!['\'']
    }
}

/// `s` without one final line feed.
pub open spec fn strip_newline(s: Seq<char>) -> Seq<char> {
    if s.len() > 0 && s.last() == '\n' {
        s.drop_last()
    } else {
        s
    }
}

/// The `curl` command line for a request to `url` with `method`, the
/// headers and an optional body.
pub open spec fn curl_text(
    long: bool,
    multiline: bool,
    url: Seq<char>,
    method: Seq<char>,
    headers: Seq<(Seq<char>, Seq<char>)>,
    body: Option<Seq<char>>,
) -> Seq<char> {
    let sep = if multiline {
        seq![' ', '\\', '\n', '\t']
    } else {
        seq![' ']
    };
    seq!['c', 'u', 'r', 'l', ' '] + option_text(long, CurlOption::Location) + seq![' ', '\''] + url
        + seq!['\'', ' '] + option_text(long, CurlOption::Request) + seq![' '] + method
        + curl_headers(headers, sep, option_text(long, CurlOption::Header)) + match body {
        Some(b) => sep + option_text(long, CurlOption::Data) + seq![' ', '\''] + strip_newline(b)
            + seq!['\'', '\n'],
        None => Seq::empty(),
    }
}

impl Curl {
    /// How `option` is written, in long or short form.
    pub fn option_string(&self, option: CurlOption) -> (res: String)
        ensures
            res@ == option_text(self.long, option),
    {
        proof {
            reveal_strlit("--location");
            reveal_strlit("-L");
            reveal_strlit("--request");
            reveal_strlit("-X");
            reveal_strlit("--header");
            reveal_strlit("-H");
            reveal_strlit("--data");
            reveal_strlit("-d");
        }
        let result = match option {
            CurlOption::Location => {
                if self.long {
                    "--location"
                } else {
                    "-L"
                }
            },
            CurlOption::Request => {
                if self.long {
                    "--request"
                } else {
                    "-X"
                }
            },
            CurlOption::Header => {
                if self.long {
                    "--header"
                } else {
                    "-H"
                }
            },
            CurlOption::Data => {
                if self.long {
                    "--data"
                } else {
                    "-d"
                }
            },
        };
        let r = owned(result);
        assert(r@ =~= option_text(self.long, option));
        r
    }

    /// The `curl` command line for `endpoint` sent to `url`, with `body`.
    pub fn render(&self, endpoint: &Endpoint, url: &str, body: Option<&str>) -> (res: String)
        ensures
            res@ == curl_text(
                self.long,
                self.multiline,
                url@,
                endpoint.method@,
                endpoint.headers.0.pairs(),
                match body {
                    Some(b) => Some(b@),
                    None => None,
                },
            ),
    {
        let sep = if self.multiline {
            " \\\n\t"
        } else {
            " "
        };
        proof {
            reveal_strlit(" \\\n\t");
            reveal_strlit(" ");
            reveal_strlit("curl ");
            reveal_strlit(" '");
            reveal_strlit("' ");
            reveal_strlit("'");
            reveal_strlit(": ");
            reveal_strlit("'\n");
        }
        assert(" '"@ =~= seq![' ', '\'']);
        assert(": "@ =~= seq![':', ' ']);
        assert("'"@ =~= seq!['\'']);
        assert("'\n"@ =~= seq!['\'', '\n']);
        assert("curl "@ =~= seq!['c', 'u', 'r', 'l', ' ']);
        assert("' "@ =~= seq!['\'', ' ']);
        assert(" "@ =~= seq![' ']);
        let ghost sepv = if self.multiline {
            seq![' ', '\\', '\n', '\t']
        } else {
            seq![' ']
        };
        assert(sep@ =~= sepv);
        let mut out = owned("curl ");
        let loc = self.option_string(CurlOption::Location);
        push_str(&mut out, loc.as_str());
        push_str(&mut out, " '");
        push_str(&mut out, url);
        push_str(&mut out, "' ");
        let req = self.option_string(CurlOption::Request);
        push_str(&mut out, req.as_str());
        push_str(&mut out, " ");
        push_str(&mut out, endpoint.method.as_str());
        let ghost head = out@;
        let h = self.option_string(CurlOption::Header);
        let m: &StrMap = &endpoint.headers.0;
        let n = m.len();
        let mut i: usize = 0;
        while i < n
            invariant
                n == m.pairs().len(),
                i <= n,
                sep@ == sepv,
                h@ == option_text(self.long, CurlOption::Header),
                out@ == head + curl_headers(m.pairs().take(i as int), sepv, h@),
            decreases n - i,
        {
            push_str(&mut out, sep);
            push_str(&mut out, h.as_str());
            push_str(&mut out, " '");
            push_str(&mut out, m.key_at(i).as_str());
            push_str(&mut out, ": ");
            push_str(&mut out, m.value_at(i).as_str());
            push_str(&mut out, "'");
            proof {
                reveal_strlit(" '");
                reveal_strlit(": ");
                reveal_strlit("'");
                assert(" '"@ =~= seq![' ', '\'']);
                assert(": "@ =~= seq![':', ' ']);
                assert("'"@ =~= seq!['\'']);
                assert(m.pairs().take(i + 1).drop_last() =~= m.pairs().take(i as int));
            }
            assert(out@ =~= head + curl_headers(m.pairs().take(i + 1), sepv, h@));
            i = i + 1;
        }
        assert(m.pairs().take(n as int) =~= m.pairs());
        let ghost mid = out@;
        if let Some(b) = body {
            let d = self.option_string(CurlOption::Data);
            push_str(&mut out, sep);
            push_str(&mut out, d.as_str());
            push_str(&mut out, " '");
            let v = chars_of(b);
            let trimmed = if v.len() > 0 && v[v.len() - 1] == '\n' {
                string_of_range(&v, 0, v.len() - 1)
            } else {
                string_of_range(&v, 0, v.len())
            };
            assert(trimmed@ =~= strip_newline(b@));
            push_str(&mut out, trimmed.as_str());
            push_str(&mut out, "'\n");
            assert(out@ =~= mid + (sepv + d@ + seq![' ', '\''] + strip_newline(b@) + seq!['\'', '\n']));
        } else {
            assert(out@ =~= mid + Seq::<char>::empty());
        }
        out
    }
}

/// A raw HTTP message, as recorded in history.
pub struct Http(String);

impl View for Http {
    type V = Seq<char>;

    closed spec fn view(&self) -> Seq<char> {
        self.0@
    }
}

/// Header lines of a message, each as `<mark> key: value` and a line feed.
pub open spec fn http_header_lines(ps: Seq<(Seq<char>, Seq<char>)>, mark: char) -> Seq<char>
    decreases ps.len(),
{
    if ps.len() == 0 {
        Seq::empty()
    } else {
        http_header_lines(ps.drop_last(), mark) + seq![mark, ' '] + ps.last().0 + seq![':', ' ']
            + ps.last().1 + seq!['\n']
    }
}

/// Appends the header lines of `headers`, each starting with `mark`.
fn push_header_lines(out: &mut String, headers: &Vec<(String, String)>, mark: char)
    ensures
        final(out)@ == old(out)@ + http_header_lines(
            headers@.map_values(|e: (String, String)| (e.0@, e.1@)),
            mark,
        ),
{
    let ghost ps = headers@.map_values(|e: (String, String)| (e.0@, e.1@));
    let ghost start = out@;
    let mut i: usize = 0;
    while i < headers.len()
        invariant
            i <= headers.len(),
            ps == headers@.map_values(|e: (String, String)| (e.0@, e.1@)),
            out@ == start + http_header_lines(ps.take(i as int), mark),
        decreases headers.len() - i,
    {
        push_char(out, mark);
        push_char(out, ' ');
        push_str(out, headers[i].0.as_str());
        push_str(out, ": ");
        push_str(out, headers[i].1.as_str());
        push_char(out, '\n');
        proof {
            reveal_strlit(": ");
            assert(ps.take(i + 1).drop_last() =~= ps.take(i as int));
        }
        assert(out@ =~= start + http_header_lines(ps.take(i + 1), mark));
        i = i + 1;
    }
    assert(ps.take(headers.len() as int) =~= ps);
}

impl Http {
    /// The message text.
    pub fn text(&self) -> (res: String)
        ensures
            res@ == self@,
    {
        self.0.clone()
    }

    /// The message of a response: its version and status, then its header
    /// lines, each after `<`, then `<`.
    pub fn from_response(version: &str, status: &str, headers: &Vec<(String, String)>) -> (res: Http)
        ensures
            res@ == seq!['<', ' '] + version@ + seq![' '] + status@ + seq!['\n'] + http_header_lines(
                headers@.map_values(|e: (String, String)| (e.0@, e.1@)),
                '<',
            ) + seq!['<'],
    {
        let mut out = owned("< ");
        push_str(&mut out, version);
        push_char(&mut out, ' ');
        push_str(&mut out, status);
        push_char(&mut out, '\n');
        push_header_lines(&mut out, headers, '<');
        push_char(&mut out, '<');
        proof {
            reveal_strlit("< ");
        }
        let r = Http(out);
        assert(r@ =~= seq!['<', ' '] + version@ + seq![' '] + status@ + seq!['\n'] + http_header_lines(
            headers@.map_values(|e: (String, String)| (e.0@, e.1@)),
            '<',
        ) + seq!['<']);
        r
    }

    /// The message of a request: method, path and version, the host, then
    /// its header lines, each after `>`, then `>`.
    pub fn from_request(
        method: &str,
        path_and_query: &str,
        version: &str,
        host: &str,
        headers: &Vec<(String, String)>,
    ) -> (res: Http)
        ensures
            res@ == seq!['>', ' '] + method@ + seq![' '] + path_and_query@ + seq![' '] + version@
                + seq!['\n', '>', ' ', 'H', 'o', 's', 't', ':', ' '] + host@ + seq!['\n']
                + http_header_lines(headers@.map_values(|e: (String, String)| (e.0@, e.1@)), '>')
                + seq!['>'],
    {
        let mut out = owned("> ");
        push_str(&mut out, method);
        push_char(&mut out, ' ');
        push_str(&mut out, path_and_query);
        push_char(&mut out, ' ');
        push_str(&mut out, version);
        push_str(&mut out, "\n> Host: ");
        push_str(&mut out, host);
        push_char(&mut out, '\n');
        push_header_lines(&mut out, headers, '>');
        push_char(&mut out, '>');
        proof {
            reveal_strlit("> ");
            reveal_strlit("\n> Host: ");
        }
        let r = Http(out);
        assert(r@ =~= seq!['>', ' '] + method@ + seq![' '] + path_and_query@ + seq![' '] + version@
            + seq!['\n', '>', ' ', 'H', 'o', 's', 't', ':', ' '] + host@ + seq!['\n']
            + http_header_lines(headers@.map_values(|e: (String, String)| (e.0@, e.1@)), '>')
            + seq!['>']);
        r
    }

    /// A message with the given text.
    pub fn from_text(text: String) -> (res: Http)
        ensures
            res@ == text@,
    {
        Http(text)
    }
}

} // verus!
