//! Input validation: destination paths and download URLs are checked before
//! any state mutation occurs.

use vstd::prelude::*;
use vstd::string::{StrSliceExecFns, StringExecFns};

use crate::error::Error;

verus! {

/// Suffix of `s` after its last `/`; the whole of `s` when it has none.
pub open spec fn last_component(s: Seq<char>) -> Seq<char>
    decreases s.len(),
{
    if s.len() == 0 {
        Seq::empty()
    } else if s[s.len() - 1] == '/' {
        Seq::empty()
    } else {
        last_component(s.drop_last()).push(s[s.len() - 1])
    }
}

/// The filename component of a path: trailing separators are ignored, a bare
/// `.` component is skipped, and a path that ends in `..` or consists only of
/// separators has none.
pub open spec fn spec_file_name(s: Seq<char>) -> Option<Seq<char>>
    decreases s.len(),
{
    if s.len() == 0 {
        None
    } else if s[s.len() - 1] == '/' {
        spec_file_name(s.drop_last())
    } else {
        let c = last_component(s);
        if c == seq!['.'] {
            spec_file_name(s.take(s.len() - 1))
        } else if c == seq!['.', '.'] {
            None
        } else {
            Some(c)
        }
    }
}

/// A path is absolute when it starts with the separator.
pub open spec fn path_is_absolute(s: Seq<char>) -> bool {
    s.len() > 0 && s[0] == '/'
}

/// A destination path is accepted when it is non-empty, absolute, and has a
/// filename component.
pub open spec fn path_valid(s: Seq<char>) -> bool {
    s.len() > 0 && path_is_absolute(s) && spec_file_name(s) is Some
}

/// Start of the suffix of `s@.take(end)` that follows its last `/`.
fn component_start(s: &str, end: usize) -> (r: usize)
    requires
        end <= s@.len(),
    ensures
        r <= end,
        last_component(s@.take(end as int)) == s@.subrange(r as int, end as int),
        r > 0 ==> s@[r - 1] == '/',
    decreases end,
{
    if end == 0 {
        proof {
            assert(s@.take(0) =~= Seq::<char>::empty());
            assert(s@.subrange(0, 0) =~= Seq::<char>::empty());
        }
        0
    } else if s.get_char(end - 1) == '/' {
        proof {
            assert(s@.subrange(end as int, end as int) =~= Seq::<char>::empty());
        }
        end
    } else {
        let r = component_start(s, end - 1);
        proof {
            assert(s@.take(end as int).drop_last() =~= s@.take(end - 1));
            assert(s@.subrange(r as int, end - 1).push(s@[end - 1]) =~= s@.subrange(
                r as int,
                end as int,
            ));
        }
        r
    }
}

/// Bounds of the filename component of `s@.take(end)`, when it has one.
fn file_name_bounds(s: &str, end: usize) -> (r: Option<(usize, usize)>)
    requires
        end <= s@.len(),
    ensures
        match r {
            Some(b) => b.0 <= b.1 <= end && spec_file_name(s@.take(end as int)) == Some(
                s@.subrange(b.0 as int, b.1 as int),
            ),
            None => spec_file_name(s@.take(end as int)) is None,
        },
    decreases end,
{
    if end == 0 {
        None
    } else if s.get_char(end - 1) == '/' {
        proof {
            assert(s@.take(end as int).drop_last() =~= s@.take(end - 1));
        }
        file_name_bounds(s, end - 1)
    } else {
        let start = component_start(s, end);
        proof {
            assert(s@.take(end as int)[end - 1] == s@[end - 1]);
        }
        if end - start == 1 && s.get_char(start) == '.' {
            proof {
                assert(last_component(s@.take(end as int)) =~= seq!['.']);
                assert(s@.take(end as int).take(end - 1) =~= s@.take(end - 1));
            }
            file_name_bounds(s, end - 1)
        } else if end - start == 2 && s.get_char(start) == '.' && s.get_char(start + 1) == '.' {
            proof {
                assert(last_component(s@.take(end as int)) =~= seq!['.', '.']);
            }
            None
        } else {
            proof {
                let c = last_component(s@.take(end as int));
                assert(c == s@.subrange(start as int, end as int));
                assert(c.len() == end - start);
                if end - start == 1 {
                    assert(s@[start as int] != '.');
                    assert(c[0] == s@[start as int]);
                    assert(c != seq!['.']);
                } else if end - start == 2 {
                    assert(c != seq!['.']);
                    if s@[start as int] == '.' {
                        assert(c[1] == s@[start + 1]);
                        assert(c != seq!['.', '.']);
                    } else {
                        assert(c[0] == s@[start as int]);
                        assert(c != seq!['.', '.']);
                    }
                } else {
                    assert(c != seq!['.']);
                    assert(c != seq!['.', '.']);
                }
            }
            Some((start, end))
        }
    }
}

/// The filename component of `path`, or the whole of `path` when it has none.
pub open spec fn spec_filename(s: Seq<char>) -> Seq<char> {
    match spec_file_name(s) {
        Some(c) => c,
        None => s,
    }
}

/// The filename component of `path`, or the whole of `path` when it has none.
pub fn filename<'a>(path: &'a str) -> (r: &'a str)
    ensures
        r@ == spec_filename(path@),
{
    let n = path.unicode_len();
    proof {
        assert(path@.take(n as int) =~= path@);
    }
    match file_name_bounds(path, n) {
        Some(b) => path.substring_char(b.0, b.1),
        None => path,
    }
}

/// Validates a download path.
///
/// Accepts exactly the paths that are non-empty, absolute, and carry a
/// filename component; every rejection is a `Path` error naming the first
/// rule the input breaks.
pub fn path(input: &str) -> (r: Result<(), Error>)
    ensures
        r is Ok <==> path_valid(input@),
        input@.len() == 0 ==> (r matches Err(Error::Path(m)) && m@ == "path cannot be empty"@),
        input@.len() > 0 && !path_is_absolute(input@) ==> (r matches Err(Error::Path(m)) && m@
            == "path must be absolute"@),
        input@.len() > 0 && path_is_absolute(input@) && spec_file_name(input@) is None ==> (r
            matches Err(Error::Path(m)) && m@ == "path must have a filename"@),
{
    let n = input.unicode_len();
    if n == 0 {
        return Err(Error::Path(String::from_str("path cannot be empty")));
    }
    if input.get_char(0) != '/' {
        return Err(Error::Path(String::from_str("path must be absolute")));
    }
    proof {
        assert(input@.take(n as int) =~= input@);
    }
    match file_name_bounds(input, n) {
        Some(_) => Ok(()),
        None => Err(Error::Path(String::from_str("path must have a filename"))),
    }
}

/// What parsing an absolute URL yields for a given string: `None` when the
/// string is not an absolute URL, otherwise its scheme and whether it has a
/// host. The result depends on the string alone.
pub uninterp spec fn url_facts(s: Seq<char>) -> Option<(Seq<char>, bool)>;

/// Relies on `url::Url::parse`, `Url::scheme` and `Url::host` of the `url`
/// crate: whether the string parses as an absolute URL, its scheme
/// (lower-cased, without the `:` delimiter), and whether it has a host; the
/// error text is the parse error's own message.
#[verifier::external_body]
fn parse_url_facts(s: &str) -> (r: Result<(String, bool), String>)
    ensures
        r matches Ok(f) ==> url_facts(s@) == Some((f.0@, f.1)),
        r is Err ==> url_facts(s@) is None,
{
    match ::url::Url::parse(s) {
        Ok(u) => {
            let has_host = match u.host() {
                Some(_) => true,
                None => false,
            };
            Ok((u.scheme().to_string(), has_host))
        },
        Err(e) => Err(format!("{}", e)),
    }
}

/// A download URL is accepted when it is non-empty, parses as an absolute
/// URL, has scheme `http` or `https`, and has a host.
pub open spec fn url_valid(s: Seq<char>) -> bool {
    &&& s.len() > 0
    &&& match url_facts(s) {
        Some(f) => (f.0 == "http"@ || f.0 == "https"@) && f.1,
        None => false,
    }
}

/// Validates a download URL.
///
/// Accepts exactly the URLs that are non-empty, parse as an absolute URL,
/// carry scheme `http` or `https`, and have a host; every rejection is a
/// `Url` error.
pub fn url(input: &str) -> (r: Result<(), Error>)
    ensures
        r is Ok <==> url_valid(input@),
        r matches Err(e) ==> e is Url,
        input@.len() == 0 ==> (r matches Err(Error::Url(m)) && m@ == "URL cannot be empty"@),
        input@.len() > 0 && (url_facts(input@) matches Some(f) && !(f.0 == "http"@ || f.0
            == "https"@)) ==> (r matches Err(Error::Url(m)) && m@ == "Invalid URL scheme '"@ + (
        url_facts(input@)->Some_0).0 + "': must be http or https"@),
        input@.len() > 0 && (url_facts(input@) matches Some(f) && (f.0 == "http"@ || f.0
            == "https"@) && !f.1) ==> (r matches Err(Error::Url(m)) && m@
            == "URL must have a host"@),
{
    let n = input.unicode_len();
    if n == 0 {
        return Err(Error::Url(String::from_str("URL cannot be empty")));
    }
    match parse_url_facts(input) {
        Err(e) => Err(Error::Url(String::from_str("Invalid URL: ").concat(e.as_str()))),
        Ok(f) => {
            let (scheme, has_host) = f;
            if !(scheme == String::from_str("http") || scheme == String::from_str("https")) {
                Err(
                    Error::Url(
                        String::from_str("Invalid URL scheme '").concat(scheme.as_str()).concat(
                            "': must be http or https",
                        ),
                    ),
                )
            } else if !has_host {
                Err(Error::Url(String::from_str("URL must have a host")))
            } else {
                Ok(())
            }
        },
    }
}

} // verus!
