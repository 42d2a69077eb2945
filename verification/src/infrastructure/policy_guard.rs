use vstd::prelude::*;

use crate::domain::policy::FilesystemPolicy;
use crate::error::{ErrorModel, MdtoolError};
use crate::text::{append, chars_of, string_of};

verus! {

/// Whether `std::path::Path::is_absolute` holds of a path.
pub uninterp spec fn path_absolute(p: Seq<char>) -> bool;

/// The text of the path that `std::path::Path::join` makes of a base and a
/// path.
pub uninterp spec fn path_joined(base: Seq<char>, p: Seq<char>) -> Seq<char>;

/// Whether `std::path::Path::starts_with` holds: `root` is a prefix of `p`
/// component by component.
pub uninterp spec fn path_under(p: Seq<char>, root: Seq<char>) -> bool;

/// Calls `std::path::Path::is_absolute`. Claimed: the result is
/// `path_absolute` of the path.
#[verifier::external_body]
fn is_absolute(p: &str) -> (r: bool)
    ensures
        r == path_absolute(p@),
{
    std::path::Path::new(p).is_absolute()
}

/// Calls `std::path::Path::join` on two paths given as text. Claimed: the
/// joined path's text is `path_joined` of the two (joining UTF-8 paths
/// gives UTF-8, so the conversion back to text loses nothing).
#[verifier::external_body]
fn join(base: &str, p: &str) -> (r: String)
    ensures
        r@ == path_joined(base@, p@),
{
    std::path::Path::new(base).join(p).to_string_lossy().into_owned()
}

/// Calls `std::path::Path::starts_with`. Claimed: the result is
/// `path_under` of the two paths.
#[verifier::external_body]
fn starts_with(p: &str, root: &str) -> (r: bool)
    ensures
        r == path_under(p@, root@),
{
    std::path::Path::new(p).starts_with(std::path::Path::new(root))
}

/// A path made absolute: as it is when absolute, else joined to the
/// working directory.
pub open spec fn absolute_of(p: Seq<char>, cwd: Seq<char>) -> Seq<char> {
    if path_absolute(p) {
        p
    } else {
        path_joined(cwd, p)
    }
}

/// The components kept after one more component of a path: an empty one
/// and `.` leave them as they are, `..` drops the last one (none is left
/// above the top), any other is added.
pub open spec fn push_component(kept: Seq<Seq<char>>, c: Seq<char>) -> Seq<Seq<char>> {
    if c.len() == 0 || c == seq!['.'] {
        kept
    } else if c == seq!['.', '.'] {
        if kept.len() > 0 {
            kept.drop_last()
        } else {
            kept
        }
    } else {
        kept.push(c)
    }
}

/// The components kept from a path read so far, with the component being
/// read.
pub open spec fn path_state(p: Seq<char>) -> (Seq<Seq<char>>, Seq<char>)
    decreases p.len(),
{
    if p.len() == 0 {
        (Seq::empty(), Seq::empty())
    } else {
        let (kept, cur) = path_state(p.drop_last());
        if p.last() == '/' {
            (push_component(kept, cur), Seq::empty())
        } else {
            (kept, cur.push(p.last()))
        }
    }
}

/// The components of a path that remain once `.`, `..` and empty
/// components are resolved.
pub open spec fn path_components(p: Seq<char>) -> Seq<Seq<char>> {
    push_component(path_state(p).0, path_state(p).1)
}

/// Components joined with `/`.
pub open spec fn joined_components(cs: Seq<Seq<char>>) -> Seq<char>
    decreases cs.len(),
{
    if cs.len() == 0 {
        Seq::empty()
    } else if cs.len() == 1 {
        cs[0]
    } else {
        joined_components(cs.drop_last()) + seq!['/'] + cs.last()
    }
}

/// A path normalized without reading the filesystem: `.` and empty
/// components dropped, each `..` taking away the component before it, and
/// a leading `/` kept.
pub open spec fn normalized_path(p: Seq<char>) -> Seq<char> {
    if p.len() > 0 && p[0] == '/' {
        seq!['/'] + joined_components(path_components(p))
    } else {
        joined_components(path_components(p))
    }
}

/// The absolute, normalized form of a path.
pub open spec fn canonical_of(p: Seq<char>, cwd: Seq<char>) -> Seq<char> {
    normalized_path(absolute_of(p, cwd))
}

/// The views of a list of component texts.
pub open spec fn comp_views(v: Seq<Vec<char>>) -> Seq<Seq<char>> {
    Seq::new(v.len(), |i: int| v[i]@)
}

fn push_comp(kept: &mut Vec<Vec<char>>, cur: Vec<char>)
    ensures
        comp_views(final(kept)@) == push_component(comp_views(old(kept)@), cur@),
{
    let ghost before = comp_views(kept@);
    if cur.len() == 0 || (cur.len() == 1 && cur[0] == '.') {
        assert(cur@.len() == 1 ==> cur@ == seq![cur@[0]]);
    } else if cur.len() == 2 && cur[0] == '.' && cur[1] == '.' {
        assert(cur@ =~= seq!['.', '.']);
        if kept.len() > 0 {
            kept.pop();
            assert(comp_views(kept@) =~= before.drop_last());
        }
    } else {
        assert(cur@ != seq!['.']);
        assert(cur@ != seq!['.', '.']);
        let ghost c = cur@;
        kept.push(cur);
        assert(comp_views(kept@) =~= before.push(c));
    }
}

/// Normalizes a path without reading the filesystem (see
/// [`normalized_path`]).
pub fn normalize_path(p: &str) -> (r: String)
    ensures
        r@ == normalized_path(p@),
{
    let cs = chars_of(p);
    let mut kept: Vec<Vec<char>> = Vec::new();
    let mut cur: Vec<char> = Vec::new();
    let mut i: usize = 0;
    assert(cs@.take(0) =~= Seq::<char>::empty());
    while i < cs.len()
        invariant
            i <= cs@.len(),
            cs@ == p@,
            (comp_views(kept@), cur@) == path_state(cs@.take(i as int)),
        decreases cs@.len() - i,
    {
        let c = cs[i];
        assert(cs@.take(i + 1).drop_last() =~= cs@.take(i as int));
        if c == '/' {
            let done = cur;
            push_comp(&mut kept, done);
            cur = Vec::new();
        } else {
            cur.push(c);
        }
        i = i + 1;
    }
    assert(cs@.take(i as int) =~= cs@);
    push_comp(&mut kept, cur);
    let ghost comps = comp_views(kept@);
    let mut out: Vec<char> = Vec::new();
    if cs.len() > 0 && cs[0] == '/' {
        out.push('/');
    }
    let ghost lead = out@;
    let mut k: usize = 0;
    while k < kept.len()
        invariant
            k <= kept@.len(),
            comps == comp_views(kept@),
            out@ == lead + joined_components(comps.take(k as int)),
        decreases kept@.len() - k,
    {
        assert(comps.take(k + 1).drop_last() =~= comps.take(k as int));
        if k > 0 {
            out.push('/');
        }
        append(&mut out, kept[k].as_slice());
        assert(comps[k as int] == kept@[k as int]@);
        assert(out@ =~= lead + joined_components(comps.take(k + 1)));
        k = k + 1;
    }
    assert(comps.take(k as int) =~= comps);
    string_of(out.as_slice())
}

/// Whether the absolute, normalized path lies under one of the policy's
/// roots, each made absolute against the working directory and normalized.
pub open spec fn under_some_root(policy: FilesystemPolicy, path: Seq<char>, cwd: Seq<char>) -> bool {
    exists|i: int|
        0 <= i < policy.allowed_roots@.len() && path_under(
            canonical_of(path, cwd),
            canonical_of(#[trigger] policy.allowed_roots@[i]@, cwd),
        )
}

/// What checking a path against a policy gives: with no root configured, a
/// policy error; else the absolute, normalized path when it lies under a
/// root, and a policy error naming the path when it does not.
pub open spec fn check_path_spec(policy: FilesystemPolicy, path: Seq<char>, cwd: Seq<char>) -> Result<
    Seq<char>,
    ErrorModel,
> {
    if policy.allowed_roots@.len() == 0 {
        Err(ErrorModel::Policy("No allowed roots configured"@))
    } else if under_some_root(policy, path, cwd) {
        Ok(canonical_of(path, cwd))
    } else {
        Err(ErrorModel::Policy("Path '"@ + path + "' is outside allowed roots"@))
    }
}

fn absolute(p: &str, cwd: &str) -> (r: String)
    ensures
        r@ == absolute_of(p@, cwd@),
{
    if is_absolute(p) {
        p.to_string()
    } else {
        join(cwd, p)
    }
}

/// Check whether a file path is allowed by the filesystem policy, with
/// relative paths taken from the working directory `cwd`, and `.` and `..`
/// resolved; returns the absolute, normalized path.
pub fn check_path(policy: &FilesystemPolicy, path: &str, cwd: &str) -> (r: Result<String, MdtoolError>)
    ensures
        match r {
            Ok(p) => check_path_spec(*policy, path@, cwd@) == Ok::<Seq<char>, ErrorModel>(p@),
            Err(e) => check_path_spec(*policy, path@, cwd@) == Err::<Seq<char>, ErrorModel>(e@),
        },
{
    let canonical = normalize_path(absolute(path, cwd).as_str());
    let n = policy.allowed_roots.len();
    if n == 0 {
        return Err(MdtoolError::Policy(string_of(chars_of("No allowed roots configured").as_slice())));
    }
    let mut i: usize = 0;
    while i < n
        invariant
            i <= n == policy.allowed_roots@.len(),
            canonical@ == canonical_of(path@, cwd@),
            forall|k: int|
                0 <= k < i ==> !path_under(
                    canonical_of(path@, cwd@),
                    canonical_of(#[trigger] policy.allowed_roots@[k]@, cwd@),
                ),
        decreases n - i,
    {
        let root = normalize_path(absolute(policy.allowed_roots[i].as_str(), cwd).as_str());
        if starts_with(canonical.as_str(), root.as_str()) {
            return Ok(canonical);
        }
        i = i + 1;
    }
    let mut msg = chars_of("Path '");
    append(&mut msg, chars_of(path).as_slice());
    append(&mut msg, chars_of("' is outside allowed roots").as_slice());
    Err(MdtoolError::Policy(string_of(msg.as_slice())))
}

/// The error of a write under a read-only policy.
pub open spec fn read_only_error() -> ErrorModel {
    ErrorModel::Policy("Write operations not allowed (read-only policy)"@)
}

/// Check if a write operation is allowed: refused under a read-only policy.
pub fn check_write_allowed(policy: &FilesystemPolicy) -> (r: Result<(), MdtoolError>)
    ensures
        r is Ok <==> !policy.read_only,
        r matches Err(e) ==> e@ == read_only_error(),
{
    if policy.read_only {
        return Err(MdtoolError::Policy(string_of(chars_of("Write operations not allowed (read-only policy)").as_slice())));
    }
    Ok(())
}

} // verus!
