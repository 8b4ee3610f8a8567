//! Where the settings file is looked for: the path in the
//! `S3_VIEWER_SETTINGS` environment variable when it is set and not blank,
//! `~/.s3-viewer` otherwise, with a leading `~` expanded.
use vstd::prelude::*;

use crate::text::option_str_view;
use crate::text;
use crate::text::{chars_of, push_str, str_eq, str_starts_with, string_from, trim_range};

verus! {

pub const SETTINGS_PATH_ENV_VARIABLE: &'static str = "S3_VIEWER_SETTINGS";

pub const DEFAULT_SETTINGS_PATH: &'static str = "~/.s3-viewer";

/// A settings path with a LEADING `~` expanded into `home`: the path `~`
/// itself, or `~/...` (without doubling a trailing `/` of `home`). A `~`
/// anywhere else is an ordinary file-name character and stays; so does
/// `~user/...`. Without a known home directory the path is used as is.
pub open spec fn expanded_path(path: Seq<char>, home: Option<Seq<char>>) -> Seq<char> {
    match home {
        None => path,
        Some(h) => if path == "~"@ {
            h
        } else if text::starts_with(path, "~/"@) {
            text::trim_end_char(h, '/') + "/"@ + path.subrange(2, path.len() as int)
        } else {
            path
        },
    }
}

/// The settings file to read, given the environment variable's value and the
/// home directory.
pub open spec fn settings_file_name(env_path: Option<Seq<char>>, home: Option<Seq<char>>) -> Seq<
    char,
> {
    match env_path {
        Some(p) => if text::trim(p).len() > 0 {
            expanded_path(text::trim(p), home)
        } else {
            expanded_path(DEFAULT_SETTINGS_PATH@, home)
        },
        None => expanded_path(DEFAULT_SETTINGS_PATH@, home),
    }
}

/// A settings path with a leading `~` expanded into `home`.
pub fn expand_home_dir(path: &str, home: Option<&str>) -> (r: String)
    ensures
        r@ == expanded_path(path@, option_str_view(home)),
{
    let home = match home {
        None => return String::from_str(path),
        Some(h) => h,
    };
    if str_eq(path, "~") {
        return String::from_str(home);
    }
    if !str_starts_with(path, "~/") {
        return String::from_str(path);
    }
    proof {
        reveal_strlit("~/");
    }
    let rest = path.substring_char(2, path.unicode_len());
    let hs = chars_of(home);
    let mut end = hs.len();
    assert(hs@.subrange(0, hs@.len() as int) =~= hs@);
    while end > 0 && hs[end - 1] == '/'
        invariant
            end <= hs@.len(),
            text::trim_end_char(hs@, '/') == text::trim_end_char(hs@.subrange(0, end as int), '/'),
        decreases end,
    {
        proof {
            text::lemma_trim_end_char_step(hs@, end as int, '/');
        }
        end = end - 1;
    }
    assert(text::trim_end_char(hs@.subrange(0, end as int), '/') == hs@.subrange(0, end as int));
    let mut r = string_from(&hs, 0, end);
    push_str(&mut r, "/");
    push_str(&mut r, rest);
    r
}

/// The settings file to read, given the value of `S3_VIEWER_SETTINGS` (if
/// set) and the home directory (if known).
pub fn get_settings_file_name(env_path: Option<&str>, home: Option<&str>) -> (r: String)
    ensures
        r@ == settings_file_name(option_str_view(env_path), option_str_view(home)),
{
    match env_path {
        Some(p) => {
            let cs = chars_of(p);
            let n = cs.len();
            assert(cs@.subrange(0, n as int) =~= cs@);
            let (a, b) = trim_range(&cs, 0, n);
            if a < b {
                let trimmed = string_from(&cs, a, b);
                return expand_home_dir(trimmed.as_str(), home);
            }
        },
        None => {},
    }
    expand_home_dir(DEFAULT_SETTINGS_PATH, home)
}

/// A non-blank `S3_VIEWER_SETTINGS` always names the file, trimmed: a path
/// that does not start with `~` is used as given whatever the home
/// directory, and so is any path when the home directory is unknown; a
/// leading `~/` is the home directory (without its trailing `/`s). The
/// default `~/.s3-viewer` is used exactly when the variable is absent or
/// blank.
pub proof fn lemma_the_variable_names_the_settings_file(p: Seq<char>, home: Option<Seq<char>>)
    ensures
        text::trim(p).len() > 0 && !text::starts_with(text::trim(p), "~"@) ==> settings_file_name(
            Some(p),
            home,
        ) == text::trim(p),
        text::trim(p).len() > 0 && home is None ==> settings_file_name(Some(p), home) == text::trim(
            p,
        ),
        text::starts_with(text::trim(p), "~/"@) && home is Some ==> settings_file_name(
            Some(p),
            home,
        ) == text::trim_end_char(home->0, '/') + "/"@ + text::trim(p).subrange(
            2,
            text::trim(p).len() as int,
        ),
        text::trim(p).len() == 0 ==> settings_file_name(Some(p), home) == settings_file_name(
            None,
            home,
        ),
        settings_file_name(None, home) == match home {
            Some(h) => text::trim_end_char(h, '/') + "/.s3-viewer"@,
            None => "~/.s3-viewer"@,
        },
{
    reveal_strlit("~");
    reveal_strlit("~/");
    reveal_strlit("/");
    reveal_strlit("~/.s3-viewer");
    reveal_strlit(".s3-viewer");
    reveal_strlit("/.s3-viewer");
    {
        let t = text::trim(p);
        if t.len() > 0 && !text::starts_with(t, "~"@) {
            assert(t != "~"@) by {
                if t == "~"@ {
                    assert(t.subrange(0, 1) =~= "~"@);
                }
            }
            assert(!text::starts_with(t, "~/"@)) by {
                if text::starts_with(t, "~/"@) {
                    assert(t.subrange(0, 2)[0] == t[0]);
                    assert(t[0] == '~');
                    assert(t.subrange(0, 1) =~= "~"@);
                }
            }
        }
        if text::starts_with(t, "~/"@) {
            assert(t != "~"@);
        }
    }
    let d = DEFAULT_SETTINGS_PATH@;
    assert(d.subrange(0, 2) =~= "~/"@);
    assert(d.len() == 12);
    assert(d.len() != "~"@.len());
    assert(d.subrange(2, d.len() as int) =~= ".s3-viewer"@);
    assert("/"@ + ".s3-viewer"@ =~= "/.s3-viewer"@);
    if let Some(h) = home {
        assert(text::trim_end_char(h, '/') + "/"@ + ".s3-viewer"@ =~= text::trim_end_char(h, '/')
            + "/.s3-viewer"@);
    }
}

/// Only a leading `~`, alone or followed by `/`, is expanded: any other
/// path, and any path when the home directory is unknown, is kept as is.
pub proof fn lemma_only_a_leading_tilde_is_expanded(path: Seq<char>, home: Option<Seq<char>>)
    ensures
        !(path == "~"@ || text::starts_with(path, "~/"@)) ==> expanded_path(path, home) == path,
        home is None ==> expanded_path(path, home) == path,
{
}

/// The expansion of `~/rest` ends with `/rest` and starts with the home
/// directory stripped of its trailing `/`s.
pub proof fn lemma_expansion_keeps_the_rest(rest: Seq<char>, home: Seq<char>)
    ensures
        expanded_path("~/"@ + rest, Some(home)) == text::trim_end_char(home, '/') + "/"@ + rest,
{
    reveal_strlit("~/");
    reveal_strlit("~");
    let p = "~/"@ + rest;
    assert(p.subrange(0, 2) =~= "~/"@);
    assert(p.subrange(2, p.len() as int) =~= rest);
    assert(p != "~"@) by {
        assert(p.len() != "~"@.len());
    }
}

} // verus!
