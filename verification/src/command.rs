//! Deterministic construction of the downloader's argument list.
//!
//! Given the request options and the two collaborator paths, the argument
//! list is fixed: output encoding first, then the format selector (unless
//! no quality is requested), the download directory, the accelerated
//! external downloader's fixed flag set (when requested), the cookie file
//! (when it exists), the proxy (when given), the free-form extra tokens,
//! and the trimmed target URL last, so user-supplied flags cannot swallow
//! it. The order is significant for the external tool's parser.

use vstd::prelude::*;
use vstd::string::{StrSliceExecFns, StringExecFns};
use crate::chars::{is_ws, is_ws_char};

verus! {

/// The options one download request carries, as mathematical values.
#[verifier::ext_equal]
pub ghost struct RequestView {
    pub url: Seq<char>,
    pub proxy: Option<Seq<char>>,
    pub cookie_text: Option<Seq<char>>,
    pub use_aria2: bool,
    pub quality: Seq<char>,
    pub custom_args: Option<Seq<char>>,
}

/// The options one download request carries.
pub struct DownloadRequest {
    pub url: String,
    pub proxy: Option<String>,
    pub cookie_text: Option<String>,
    pub use_aria2: bool,
    pub quality: String,
    pub custom_args: Option<String>,
}

impl View for DownloadRequest {
    type V = RequestView;

    open spec fn view(&self) -> RequestView {
        RequestView {
            url: self.url@,
            proxy: self.proxy.deep_view(),
            cookie_text: self.cookie_text.deep_view(),
            use_aria2: self.use_aria2,
            quality: self.quality@,
            custom_args: self.custom_args.deep_view(),
        }
    }
}

/// `s` without its leading whitespace.
pub open spec fn trim_start_spec(s: Seq<char>) -> Seq<char>
    decreases s.len(),
{
    if s.len() == 0 {
        s
    } else if is_ws_char(s[0]) {
        trim_start_spec(s.drop_first())
    } else {
        s
    }
}

/// `s` without its trailing whitespace.
pub open spec fn trim_end_spec(s: Seq<char>) -> Seq<char>
    decreases s.len(),
{
    if s.len() == 0 {
        s
    } else if is_ws_char(s.last()) {
        trim_end_spec(s.drop_last())
    } else {
        s
    }
}

/// `s` without leading and trailing whitespace.
pub open spec fn trimmed(s: Seq<char>) -> Seq<char> {
    trim_end_spec(trim_start_spec(s))
}

/// The whitespace-separated tokens of `s` from position `i` on, with
/// `cur` the partial token read so far.
pub open spec fn split_from(s: Seq<char>, i: int, cur: Seq<char>) -> Seq<Seq<char>>
    decreases s.len() - i,
{
    if i < 0 || i >= s.len() {
        if cur.len() == 0 {
            Seq::empty()
        } else {
            seq![cur]
        }
    } else if is_ws_char(s[i]) {
        if cur.len() == 0 {
            split_from(s, i + 1, Seq::empty())
        } else {
            seq![cur] + split_from(s, i + 1, Seq::empty())
        }
    } else {
        split_from(s, i + 1, cur.push(s[i]))
    }
}

/// The maximal whitespace-free, nonempty tokens of `s`, in order.
pub open spec fn split_ws(s: Seq<char>) -> Seq<Seq<char>> {
    split_from(s, 0, Seq::empty())
}

/// The format selector handed to the tool: the best available streams for
/// `"best"`, otherwise the best streams at or below the requested height.
pub open spec fn format_selector(q: Seq<char>) -> Seq<char> {
    if q == "best"@ {
        "bestvideo+bestaudio/best"@
    } else {
        "bestvideo[height<="@ + q + "]+bestaudio/best"@
    }
}

/// The full argument list for one request.
pub open spec fn spec_build_args(
    req: RequestView,
    download_dir: Seq<char>,
    cookie_path: Seq<char>,
    cookie_exists: bool,
) -> Seq<Seq<char>> {
    let with_encoding = seq!["--encoding"@, "utf8"@];
    let with_quality = if req.quality != "none"@ {
        with_encoding + seq!["-f"@, format_selector(req.quality)]
    } else {
        with_encoding
    };
    let with_dir = with_quality + seq!["-P"@, download_dir];
    let with_aria2 = if req.use_aria2 {
        with_dir
            + seq![
            "--external-downloader"@,
            "aria2c"@,
            "--external-downloader-args"@,
            "-x 16 -k 1m"@,
        ]
    } else {
        with_dir
    };
    let with_cookies = if cookie_exists {
        with_aria2 + seq!["--cookies"@, cookie_path]
    } else {
        with_aria2
    };
    let with_proxy = match req.proxy {
        Some(p) => with_cookies + seq!["--proxy"@, p],
        None => with_cookies,
    };
    let with_custom = match req.custom_args {
        Some(c) => with_proxy + split_ws(c),
        None => with_proxy,
    };
    with_custom.push(trimmed(req.url))
}

/// Index of the first non-whitespace character, so that dropping the
/// leading whitespace of `s` is the same as skipping to that index.
fn scan_start(s: &str) -> (a: usize)
    ensures
        a <= s@.len(),
        trim_start_spec(s@) == s@.skip(a as int),
{
    let n = s.unicode_len();
    let mut a: usize = 0;
    proof {
        assert(s@.skip(0) =~= s@);
    }
    while a < n
        invariant
            n == s@.len(),
            a <= n,
            trim_start_spec(s@) == trim_start_spec(s@.skip(a as int)),
        decreases n - a,
    {
        let c = s.get_char(a);
        if !is_ws(c) {
            proof {
                assert(s@.skip(a as int)[0] == s@[a as int]);
            }
            return a;
        }
        proof {
            assert(s@.skip(a as int)[0] == s@[a as int]);
            assert(s@.skip(a as int).drop_first() =~= s@.skip(a as int + 1));
        }
        a += 1;
    }
    proof {
        assert(s@.skip(n as int) =~= Seq::<char>::empty());
    }
    a
}

/// Index after the last non-whitespace character at or after `a`, so that
/// dropping the trailing whitespace of `s[a..]` keeps exactly `s[a..b]`.
fn scan_end(s: &str, a: usize) -> (b: usize)
    requires
        a <= s@.len(),
    ensures
        a <= b <= s@.len(),
        trim_end_spec(s@.subrange(a as int, s@.len() as int)) == s@.subrange(a as int, b as int),
{
    let n = s.unicode_len();
    let mut b: usize = n;
    while b > a
        invariant
            n == s@.len(),
            a <= b <= n,
            trim_end_spec(s@.subrange(a as int, n as int)) == trim_end_spec(
                s@.subrange(a as int, b as int),
            ),
        decreases b,
    {
        let c = s.get_char(b - 1);
        proof {
            assert(s@.subrange(a as int, b as int).last() == s@[b - 1]);
        }
        if !is_ws(c) {
            return b;
        }
        proof {
            assert(s@.subrange(a as int, b as int).drop_last() =~= s@.subrange(
                a as int,
                b - 1,
            ));
        }
        b -= 1;
    }
    proof {
        assert(s@.subrange(a as int, a as int) =~= Seq::<char>::empty());
    }
    b
}

/// `s` with leading and trailing whitespace removed.
pub fn trim(s: &str) -> (r: String)
    ensures
        r@ == trimmed(s@),
{
    let a = scan_start(s);
    let b = scan_end(s, a);
    proof {
        assert(s@.skip(a as int) =~= s@.subrange(a as int, s@.len() as int));
    }
    s.substring_char(a, b).to_owned()
}

/// Split `s` on whitespace into its nonempty tokens, in order.
pub fn split_whitespace_args(s: &str) -> (r: Vec<String>)
    ensures
        r.deep_view() == split_ws(s@),
{
    let n = s.unicode_len();
    let mut r: Vec<String> = Vec::new();
    let mut i: usize = 0;
    let mut in_tok = false;
    let mut tok_start: usize = 0;
    while i < n
        invariant
            n == s@.len(),
            i <= n,
            in_tok ==> tok_start < i,
            split_ws(s@) == r.deep_view() + split_from(
                s@,
                i as int,
                if in_tok {
                    s@.subrange(tok_start as int, i as int)
                } else {
                    Seq::<char>::empty()
                },
            ),
        decreases n - i,
    {
        let ghost cur = if in_tok {
            s@.subrange(tok_start as int, i as int)
        } else {
            Seq::<char>::empty()
        };
        let c = s.get_char(i);
        if is_ws(c) {
            if in_tok {
                let t = s.substring_char(tok_start, i).to_owned();
                let ghost prev = r.deep_view();
                proof {
                    assert(prev.push(cur) =~= prev + seq![cur]);
                    assert((prev + seq![cur]) + split_from(s@, i as int + 1, Seq::empty()) =~= prev
                        + (seq![cur] + split_from(s@, i as int + 1, Seq::empty())));
                }
                r.push(t);
                in_tok = false;
                proof {
                    assert(r.deep_view() =~= prev.push(cur));
                }
            }
        } else {
            if !in_tok {
                in_tok = true;
                tok_start = i;
                proof {
                    assert(s@.subrange(i as int, i as int + 1) =~= Seq::<char>::empty().push(
                        s@[i as int],
                    ));
                }
            } else {
                proof {
                    assert(s@.subrange(tok_start as int, i as int + 1) =~= cur.push(s@[i as int]));
                }
            }
        }
        i += 1;
    }
    if in_tok {
        let t = s.substring_char(tok_start, n).to_owned();
        let ghost prev = r.deep_view();
        let ghost cur = s@.subrange(tok_start as int, n as int);
        proof {
            assert(prev + seq![cur] =~= prev.push(cur));
        }
        r.push(t);
        proof {
            assert(r.deep_view() =~= prev.push(cur));
        }
    }
    proof {
        assert(r.deep_view() + Seq::<Seq<char>>::empty() =~= r.deep_view());
    }
    r
}

/// Append one fixed argument.
fn push_arg(args: &mut Vec<String>, s: &str)
    ensures
        final(args).deep_view() == old(args).deep_view().push(s@),
{
    args.push(s.to_owned());
    proof {
        assert(args.deep_view() =~= old(args).deep_view().push(s@));
    }
}

/// Append one computed argument.
fn push_arg_string(args: &mut Vec<String>, s: String)
    ensures
        final(args).deep_view() == old(args).deep_view().push(s@),
{
    let ghost sv = s@;
    args.push(s);
    proof {
        assert(args.deep_view() =~= old(args).deep_view().push(sv));
    }
}

/// Build the argument list for one request. `cookie_exists` reports
/// whether a cookie file is present at `cookie_path`; the file test
/// itself happens at the caller's edge.
pub fn build_args(
    req: &DownloadRequest,
    download_dir: &str,
    cookie_path: &str,
    cookie_exists: bool,
) -> (args: Vec<String>)
    ensures
        args.deep_view() == spec_build_args(req@, download_dir@, cookie_path@, cookie_exists),
{
    let ghost with_encoding = seq!["--encoding"@, "utf8"@];
    let mut args: Vec<String> = Vec::new();
    push_arg(&mut args, "--encoding");
    push_arg(&mut args, "utf8");
    proof {
        assert(args.deep_view() =~= with_encoding);
    }

    let ghost with_quality = if req@.quality != "none"@ {
        with_encoding + seq!["-f"@, format_selector(req@.quality)]
    } else {
        with_encoding
    };
    if !(req.quality == String::from_str("none")) {
        let fmt = if req.quality == String::from_str("best") {
            String::from_str("bestvideo+bestaudio/best")
        } else {
            let mut f = String::from_str("bestvideo[height<=");
            f.append(req.quality.as_str());
            f.append("]+bestaudio/best");
            f
        };
        push_arg(&mut args, "-f");
        push_arg_string(&mut args, fmt);
    }
    proof {
        assert(args.deep_view() =~= with_quality);
    }

    let ghost with_dir = with_quality + seq!["-P"@, download_dir@];
    push_arg(&mut args, "-P");
    push_arg(&mut args, download_dir);
    proof {
        assert(args.deep_view() =~= with_dir);
    }

    let ghost with_aria2 = if req@.use_aria2 {
        with_dir
            + seq![
            "--external-downloader"@,
            "aria2c"@,
            "--external-downloader-args"@,
            "-x 16 -k 1m"@,
        ]
    } else {
        with_dir
    };
    if req.use_aria2 {
        push_arg(&mut args, "--external-downloader");
        push_arg(&mut args, "aria2c");
        push_arg(&mut args, "--external-downloader-args");
        push_arg(&mut args, "-x 16 -k 1m");
    }
    proof {
        assert(args.deep_view() =~= with_aria2);
    }

    let ghost with_cookies = if cookie_exists {
        with_aria2 + seq!["--cookies"@, cookie_path@]
    } else {
        with_aria2
    };
    if cookie_exists {
        push_arg(&mut args, "--cookies");
        push_arg(&mut args, cookie_path);
    }
    proof {
        assert(args.deep_view() =~= with_cookies);
    }

    let ghost with_proxy = match req@.proxy {
        Some(p) => with_cookies + seq!["--proxy"@, p],
        None => with_cookies,
    };
    match &req.proxy {
        Some(p) => {
            push_arg(&mut args, "--proxy");
            push_arg(&mut args, p.as_str());
        },
        None => {},
    }
    proof {
        assert(args.deep_view() =~= with_proxy);
    }

    let ghost with_custom = match req@.custom_args {
        Some(c) => with_proxy + split_ws(c),
        None => with_proxy,
    };
    match &req.custom_args {
        Some(c) => {
            let toks = split_whitespace_args(c.as_str());
            let ghost td = toks.deep_view();
            let m = toks.len();
            let mut j: usize = 0;
            proof {
                assert(with_proxy + td.take(0) =~= with_proxy);
            }
            while j < m
                invariant
                    m == toks@.len(),
                    j <= m,
                    td == toks.deep_view(),
                    args.deep_view() == with_proxy + td.take(j as int),
                decreases m - j,
            {
                let t = toks[j].clone();
                proof {
                    assert(td[j as int] == toks[j as int]@);
                    assert((with_proxy + td.take(j as int)).push(td[j as int]) =~= with_proxy
                        + td.take(j as int + 1));
                }
                push_arg_string(&mut args, t);
                j += 1;
            }
            proof {
                assert(td.take(m as int) =~= td);
            }
        },
        None => {},
    }
    proof {
        assert(args.deep_view() =~= with_custom);
    }

    let url = trim(req.url.as_str());
    push_arg_string(&mut args, url);
    args
}

/// The cookie text the request asks to be written to the cookie file
/// before the process starts: present and nonempty text, nothing else.
pub fn cookie_text_to_write<'a>(req: &'a DownloadRequest) -> (r: Option<&'a String>)
    ensures
        match r {
            Some(t) => req@.cookie_text == Some(t@) && t@.len() > 0,
            None => match req@.cookie_text {
                Some(c) => c.len() == 0,
                None => true,
            },
        },
{
    match &req.cookie_text {
        Some(t) => {
            if !t.as_str().is_empty() {
                Some(t)
            } else {
                None
            }
        },
        None => None,
    }
}

/// The shell command that restarts the service: inside a container the
/// supervising process is signalled to reload; outside, any old instance
/// is killed and the executable at `exe` is started again in the
/// background.
pub open spec fn spec_restart_command(in_docker: bool, exe: Seq<char>) -> Seq<char> {
    if in_docker {
        "kill -1 1"@
    } else {
        "pkill ydui; "@ + exe + " &"@
    }
}

/// Build the restart shell command; running it is the caller's business.
pub fn restart_command(in_docker: bool, exe: &str) -> (r: String)
    ensures
        r@ == spec_restart_command(in_docker, exe@),
{
    if in_docker {
        String::from_str("kill -1 1")
    } else {
        let mut c = String::from_str("pkill ydui; ");
        c.append(exe);
        c.append(" &");
        c
    }
}

} // verus!
