//! The decisions taken around git when finding the newest commit of a package's repository:
//! which remote reference is the one installed, what to fetch, and what to hand `git`.

use vstd::prelude::*;
use vstd::string::StringSliceAdditionalSpecFns;
use crate::packages::{Oid, git_oid_parse};
use crate::text::{is_prefix, copy_str, append_str, str_eq, strip_prefix_of, strings_view, chars_of, string_of, find};
use crate::env::decoded;
use crate::index::{utf8, piece, hex_text};

verus! {

/// Whether a remote reference is the one a package was installed from: `HEAD` without a
/// branch, else the branch or tag of that name.
pub open spec fn ref_matches_spec(ref_name: Seq<char>, branch: Option<Seq<char>>) -> bool {
    match branch {
        Some(b) => if is_prefix("refs/heads/"@, ref_name) {
            ref_name.subrange("refs/heads/"@.len() as int, ref_name.len() as int) == b
        } else if is_prefix("refs/tags/"@, ref_name) {
            ref_name.subrange("refs/tags/"@.len() as int, ref_name.len() as int) == b
        } else {
            false
        },
        None => ref_name == "HEAD"@,
    }
}

pub fn ref_matches_branch(ref_name: &str, branch: Option<&str>) -> (r: bool)
    ensures
        r == ref_matches_spec(ref_name@, crate::sources::opt_text(branch)),
{
    match branch {
        Some(b) => match strip_prefix_of(ref_name, "refs/heads/") {
            Some(rest) => str_eq(rest.as_str(), b),
            None => match strip_prefix_of(ref_name, "refs/tags/") {
                Some(rest) => str_eq(rest.as_str(), b),
                None => false,
            },
        },
        None => str_eq(ref_name, "HEAD"),
    }
}

/// The arguments of `git ls-remote` that list a package's installed reference (the clone
/// directory follows them).
pub fn ls_remote_args(url: &str, branch: Option<&str>) -> (r: Vec<String>)
    ensures
        strings_view(r@) == seq!["ls-remote"@, "--"@, url@, match branch { Some(b) => b@, None => "HEAD"@ }],
{
    let r = vec![copy_str("ls-remote"), copy_str("--"), copy_str(url), match branch {
        Some(b) => copy_str(b),
        None => copy_str("HEAD"),
    }];
    assert(strings_view(r@) =~= seq!["ls-remote"@, "--"@, url@, match branch { Some(b) => b@, None => "HEAD"@ }]);
    r
}

/// The text before the first tab.
pub open spec fn first_field(s: Seq<char>) -> Seq<char> {
    match find(s, '\t') {
        Some(i) => s.subrange(0, i),
        None => s,
    }
}

/// The object id that `git ls-remote` printed first: its output as UTF-8, up to the first tab.
pub open spec fn ls_remote_oid_spec(out: Seq<u8>) -> Option<Seq<u8>> {
    match decoded(out) {
        Some(t) => git_oid_parse(first_field(t)),
        None => None,
    }
}

pub fn ls_remote_oid(out: &[u8]) -> (r: Option<Oid>)
    ensures
        match r {
            Some(o) => ls_remote_oid_spec(out@) == Some(o.bytes@),
            None => ls_remote_oid_spec(out@) is None,
        },
{
    let text = match crate::env::utf8_decode(out) {
        Some(t) => t,
        None => {
            return None;
        },
    };
    let v = chars_of(text.as_str());
    proof {
        crate::text::lemma_find_from(v@, '\t', 0);
    }
    let field = match crate::text::find_char_from(&v, '\t', 0) {
        Some(i) => string_of(&v, 0, i),
        None => {
            assert(v@.subrange(0, v.len() as int) =~= v@);
            string_of(&v, 0, v.len())
        },
    };
    Oid::from_str(field.as_str())
}

/// The arguments of `git clone` that make a bare clone of a package's repository (the clone
/// directory follows them).
pub fn clone_args(url: &str, branch: Option<&str>) -> (r: Vec<String>)
    ensures
        strings_view(r@) == seq!["clone"@] + (match branch { Some(b) => seq!["-b"@, b@], None => seq![] })
            + seq!["--bare"@, "--"@, url@],
{
    let mut r: Vec<String> = vec![copy_str("clone")];
    if let Some(b) = branch {
        r.push(copy_str("-b"));
        r.push(copy_str(b));
    }
    r.push(copy_str("--bare"));
    r.push(copy_str("--"));
    r.push(copy_str(url));
    assert(strings_view(r@) =~= seq!["clone"@] + (match branch { Some(b) => seq!["-b"@, b@], None => seq![] })
        + seq!["--bare"@, "--"@, url@]);
    r
}

/// How to bring an existing clone up to date.
#[derive(Debug, PartialEq, Eq)]
pub enum FetchPlan {
    /// Point `HEAD` at `set_head` when given, fetch `refspec`, and reset local `branch` to it.
    Fetch { set_head: Option<String>, branch: String, refspec: String },
    /// `HEAD` is not symbolic: remove the clone and clone afresh.
    Reclone,
}

/// A symbolic `HEAD` target that names a branch by the usual `refs/heads/` prefix's length.
pub open spec fn head_target_ok(t: Seq<char>) -> bool {
    utf8(t).len() >= 11 && vstd::utf8::is_char_boundary(utf8(t), 11)
}

/// The plan for a clone: the installed branch when there is one (with `HEAD` pointed at it),
/// else the branch `HEAD` points at, fetching the remote `HEAD`.
pub fn fetch_plan(branch: Option<&str>, head_target: Option<&str>) -> (r: FetchPlan)
    requires
        branch is None && head_target is Some ==> head_target_ok(head_target.unwrap()@),
    ensures
        match branch {
            Some(b) => r matches FetchPlan::Fetch { set_head, branch: br, refspec }
                && set_head matches Some(h) && h@ == "refs/heads/"@ + b@ && br@ == b@ && refspec@ == b@,
            None => match head_target {
                Some(t) => r matches FetchPlan::Fetch { set_head, branch: br, refspec }
                    && set_head is None && br@ == piece(t@, 11, utf8(t@).len() as int)
                    && refspec@ == "+HEAD:refs/remotes/origin/HEAD"@,
                None => r is Reclone,
            },
        },
{
    match branch {
        Some(b) => {
            let mut h = copy_str("refs/heads/");
            append_str(&mut h, b);
            FetchPlan::Fetch { set_head: Some(h), branch: copy_str(b), refspec: copy_str(b) }
        },
        None => match head_target {
            Some(t) => {
                proof {
                    vstd::utf8::encode_utf8_valid_utf8(t@);
                }
                let (_, rest) = t.split_at(11);
                proof {
                    vstd::utf8::encode_utf8_decode_utf8(rest@);
                    assert(rest.spec_bytes() =~= utf8(t@).subrange(11, utf8(t@).len() as int));
                }
                FetchPlan::Fetch { set_head: None, branch: copy_str(rest), refspec: copy_str("+HEAD:refs/remotes/origin/HEAD") }
            },
            None => FetchPlan::Reclone,
        },
    }
}

impl Oid {
    /// The id in hexadecimal, as git shows it.
    pub fn to_hex(&self) -> (r: String)
        ensures
            r@ == hex_text(self.bytes@),
    {
        crate::index::hex_encode(self.bytes.as_slice())
    }
}

} // verus!
