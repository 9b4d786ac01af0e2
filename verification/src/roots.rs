//! Where the providers read from, and what a failed read means.
//!
//! Every kernel interface is named through a [`Roots`], so a captured tree is
//! addressed exactly the way the real `/proc` and `/sys` are. The reads
//! themselves happen at the edge; this module owns the path arithmetic, the
//! classification of a failed read, and the decoding of a single-value
//! attribute once its bytes have arrived.

use vstd::prelude::*;

use crate::text::{append_chars, chars_of, clone_chars, parse_u64, parse_u64_chars, string_of, trim, trim_chars};

verus! {

/// `PathBuf::join` on Unix: an absolute `rel` replaces the base, and one `/`
/// is inserted unless the base is empty or already ends in one.
pub open spec fn path_join(base: Seq<char>, rel: Seq<char>) -> Seq<char> {
    if rel.len() > 0 && rel[0] == '/' {
        rel
    } else if base.len() == 0 {
        rel
    } else if base.last() == '/' {
        base + rel
    } else {
        base + seq!['/'] + rel
    }
}

pub fn join_path(base: &str, rel: &str) -> (out: String)
    ensures
        out@ == path_join(base@, rel@),
{
    let b = chars_of(base);
    let r = chars_of(rel);
    if r.len() > 0 && r[0] == '/' {
        return string_of(&r);
    }
    if b.len() == 0 {
        return string_of(&r);
    }
    let mut out = clone_chars(&b);
    if b[b.len() - 1] != '/' {
        out.push('/');
    }
    append_chars(&mut out, &r);
    string_of(&out)
}

/// The `/proc` and `/sys` trees a provider reads.
#[derive(Clone, Debug, PartialEq, Eq)]
pub struct Roots {
    proc_dir: String,
    sys_dir: String,
}

impl Roots {
    pub closed spec fn proc_view(&self) -> Seq<char> {
        self.proc_dir@
    }

    pub closed spec fn sys_view(&self) -> Seq<char> {
        self.sys_dir@
    }

    /// The real machine.
    pub fn system() -> (r: Self)
        ensures
            r.proc_view() == "/proc"@,
            r.sys_view() == "/sys"@,
    {
        Roots { proc_dir: String::from_str("/proc"), sys_dir: String::from_str("/sys") }
    }

    /// A captured snapshot laid out as `<root>/proc` and `<root>/sys`.
    pub fn at(root: &str) -> (r: Self)
        ensures
            r.proc_view() == path_join(root@, "proc"@),
            r.sys_view() == path_join(root@, "sys"@),
    {
        Roots { proc_dir: join_path(root, "proc"), sys_dir: join_path(root, "sys") }
    }

    pub fn new(proc_dir: String, sys_dir: String) -> (r: Self)
        ensures
            r.proc_view() == proc_dir@,
            r.sys_view() == sys_dir@,
    {
        Roots { proc_dir, sys_dir }
    }

    pub fn proc_path(&self, relative: &str) -> (p: String)
        ensures
            p@ == path_join(self.proc_view(), relative@),
    {
        join_path(self.proc_dir.as_str(), relative)
    }

    pub fn sys_path(&self, relative: &str) -> (p: String)
        ensures
            p@ == path_join(self.sys_view(), relative@),
    {
        join_path(self.sys_dir.as_str(), relative)
    }

    pub fn proc_dir(&self) -> (p: &String)
        ensures
            p@ == self.proc_view(),
    {
        &self.proc_dir
    }

    pub fn sys_dir(&self) -> (p: &String)
        ensures
            p@ == self.sys_view(),
    {
        &self.sys_dir
    }
}

impl Default for Roots {
    fn default() -> (r: Self)
        ensures
            r.proc_view() == "/proc"@,
            r.sys_view() == "/sys"@,
    {
        Self::system()
    }
}

/// How a read of one path failed, as the edge that performed it saw it.
#[derive(Clone, Debug, PartialEq, Eq)]
pub enum IoFailure {
    NotFound,
    PermissionDenied,
    Other { detail: String },
}

/// Why a read of a kernel interface produced no bytes.
///
/// A missing file means this machine has no such hardware or kernel feature,
/// a permission error means the file is there and may not be read, and
/// anything else says nothing about support at all.
#[derive(Clone, Debug, PartialEq, Eq)]
pub enum ReadError {
    Missing { path: String },
    PermissionDenied { path: String },
    Failed { path: String, detail: String },
}

pub open spec fn key_missing() -> Seq<char> {
    "awake.provider.interface_missing"@
}

pub open spec fn key_permission_denied() -> Seq<char> {
    "awake.provider.permission_denied"@
}

pub open spec fn key_read_failed() -> Seq<char> {
    "awake.provider.read_failed"@
}

impl ReadError {
    pub open spec fn path_view(&self) -> Seq<char> {
        match self {
            ReadError::Missing { path } => path@,
            ReadError::PermissionDenied { path } => path@,
            ReadError::Failed { path, .. } => path@,
        }
    }

    pub open spec fn key_view(&self) -> Seq<char> {
        match self {
            ReadError::Missing { .. } => key_missing(),
            ReadError::PermissionDenied { .. } => key_permission_denied(),
            ReadError::Failed { .. } => key_read_failed(),
        }
    }

    /// The explanation a provider reports: the stable key, a colon, the path.
    pub open spec fn explanation_view(&self) -> Seq<char> {
        self.key_view() + seq![':'] + self.path_view()
    }

    pub fn path(&self) -> (p: &String)
        ensures
            p@ == self.path_view(),
    {
        match self {
            ReadError::Missing { path } => path,
            ReadError::PermissionDenied { path } => path,
            ReadError::Failed { path, .. } => path,
        }
    }

    /// The stable key a provider reports when this read is why it cannot
    /// answer. Presentation layers own the wording; this is never a sentence.
    pub fn as_key(&self) -> (k: &'static str)
        ensures
            k@ == self.key_view(),
    {
        match self {
            ReadError::Missing { .. } => "awake.provider.interface_missing",
            ReadError::PermissionDenied { .. } => "awake.provider.permission_denied",
            ReadError::Failed { .. } => "awake.provider.read_failed",
        }
    }

    /// The key with the path that produced it, which is what a person
    /// diagnosing an unavailable provider needs.
    pub fn explanation(&self) -> (e: String)
        ensures
            e@ == self.explanation_view(),
    {
        let mut out = chars_of(self.as_key());
        out.push(':');
        let p = chars_of(self.path().as_str());
        append_chars(&mut out, &p);
        string_of(&out)
    }

    /// Classifies a failed read of `path`.
    pub fn from_io(path: &str, failure: &IoFailure) -> (e: Self)
        ensures
            e.path_view() == path@,
            (e is Missing) == (failure is NotFound),
            (e is PermissionDenied) == (failure is PermissionDenied),
            failure matches IoFailure::Other { detail } ==> e is Failed && e->Failed_detail@
                == detail@,
    {
        let owned = String::from_str(path);
        match failure {
            IoFailure::NotFound => ReadError::Missing { path: owned },
            IoFailure::PermissionDenied => ReadError::PermissionDenied { path: owned },
            IoFailure::Other { detail } => ReadError::Failed { path: owned, detail: detail.clone() },
        }
    }
}

/// What `format!("{:?}", s)` writes for a string: the quoted, escaped form.
pub uninterp spec fn debug_quoted(s: Seq<char>) -> Seq<char>;

/// `format!("{:?}", s)` from std. The contract names the result and says no
/// more: the escaping rules are std's own.
#[verifier::external_body]
fn debug_quote(s: &str) -> (q: String)
    ensures
        q@ == debug_quoted(s@),
{
    format!("{s:?}")
}

/// A single-value `/sys` attribute with its trailing newline removed, from
/// what reading the file gave.
pub fn read_attribute(read: Result<String, ReadError>) -> (r: Result<String, ReadError>)
    ensures
        match read {
            Ok(text) => r matches Ok(v) && v@ == trim(text@),
            Err(e) => r == Err::<String, ReadError>(e),
        },
{
    match read {
        Ok(text) => {
            let chars = chars_of(text.as_str());
            Ok(string_of(&trim_chars(&chars)))
        },
        Err(e) => Err(e),
    }
}

pub open spec fn not_unsigned_detail(value: Seq<char>) -> Seq<char> {
    "not an unsigned integer: "@ + debug_quoted(value)
}

/// A `/sys` attribute read from `path`, as an unsigned integer.
///
/// A value that is not a number is a failure naming the path, never a zero;
/// a failed read is passed on as it came.
pub fn read_u64_attribute(path: &str, read: Result<String, ReadError>) -> (r: Result<u64, ReadError>)
    ensures
        match read {
            Err(e) => r == Err::<u64, ReadError>(e),
            Ok(text) => match r {
                Ok(n) => parse_u64(trim(text@)) == Some(n),
                Err(e) => {
                    &&& parse_u64(trim(text@)) is None
                    &&& e is Failed
                    &&& e.path_view() == path@
                    &&& e->Failed_detail@ == not_unsigned_detail(trim(text@))
                },
            },
        },
{
    let value = match read_attribute(read) {
        Ok(v) => v,
        Err(e) => return Err(e),
    };
    let chars = chars_of(value.as_str());
    match parse_u64_chars(&chars) {
        Some(n) => Ok(n),
        None => {
            let mut detail = chars_of("not an unsigned integer: ");
            let quoted = debug_quote(value.as_str());
            append_chars(&mut detail, &chars_of(quoted.as_str()));
            Err(ReadError::Failed { path: String::from_str(path), detail: string_of(&detail) })
        },
    }
}

} // verus!
