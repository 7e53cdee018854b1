use vstd::prelude::*;

use crate::bytes::{bytes_equal, copy_range};
use crate::error::SealVaultError;
use crate::header::append_bytes;

verus! {

/// The suffix of an encrypted file's name: ".svlt".
pub const ENCRYPTED_SUFFIX: [u8; 5] = [0x2e, 0x73, 0x76, 0x6c, 0x74];

pub open spec fn suffix_bytes() -> Seq<u8> {
    seq![0x2eu8, 0x73u8, 0x76u8, 0x6cu8, 0x74u8]
}

/// One component of a path, as the platform splits it; names are raw bytes.
#[derive(Debug)]
pub enum PathComponent {
    Prefix(Vec<u8>),
    RootDir,
    CurDir,
    ParentDir,
    Normal(Vec<u8>),
}

/// What kind of entry the walker met.
#[derive(Debug, Clone, Copy, PartialEq, Eq, Structural)]
pub enum EntryKind {
    Directory,
    File,
    Other,
}

/// What to do with one entry of the source tree.
#[derive(Debug)]
pub enum FolderAction {
    /// Create this directory.
    CreateDir(Vec<PathComponent>),
    /// Encrypt the entry into this file.
    EncryptTo(Vec<PathComponent>),
    /// Decrypt the entry into this file.
    DecryptTo(Vec<PathComponent>),
    /// Leave the entry alone.
    Skip,
}

/// Two components are the same kind and carry the same bytes.
pub open spec fn same_component(a: PathComponent, b: PathComponent) -> bool {
    match (a, b) {
        (PathComponent::Prefix(x), PathComponent::Prefix(y)) => x@ == y@,
        (PathComponent::RootDir, PathComponent::RootDir) => true,
        (PathComponent::CurDir, PathComponent::CurDir) => true,
        (PathComponent::ParentDir, PathComponent::ParentDir) => true,
        (PathComponent::Normal(x), PathComponent::Normal(y)) => x@ == y@,
        _ => false,
    }
}

/// `path` begins with the components of `root`.
pub open spec fn starts_with(path: Seq<PathComponent>, root: Seq<PathComponent>) -> bool {
    &&& root.len() <= path.len()
    &&& forall|i: int| 0 <= i < root.len() ==> same_component(#[trigger] path[i], root[i])
}

/// A plain file or directory name: not empty, not "." or "..", no '/'.
pub open spec fn name_valid(n: Seq<u8>) -> bool {
    &&& n.len() > 0
    &&& n != seq![0x2eu8]
    &&& n != seq![0x2eu8, 0x2eu8]
    &&& !n.contains(0x2fu8)
}

/// The names of a relative path: "." components are dropped; a parent,
/// root or prefix component, or a malformed name, makes the path unsafe.
pub open spec fn validated_names(rel: Seq<PathComponent>) -> Result<Seq<Seq<u8>>, SealVaultError>
    decreases rel.len(),
{
    if rel.len() == 0 {
        Ok(Seq::empty())
    } else {
        match rel[0] {
            PathComponent::CurDir => validated_names(rel.drop_first()),
            PathComponent::Normal(n) => if name_valid(n@) {
                match validated_names(rel.drop_first()) {
                    Ok(rest) => Ok(seq![n@] + rest),
                    Err(e) => Err(e),
                }
            } else {
                Err(SealVaultError::UnsafePath)
            },
            _ => Err(SealVaultError::UnsafePath),
        }
    }
}

/// The path is the root followed by one plain component per name.
pub open spec fn joined_path(path: Seq<PathComponent>, root: Seq<PathComponent>, names: Seq<Seq<u8>>) -> bool {
    &&& path.len() == root.len() + names.len()
    &&& starts_with(path, root)
    &&& forall|i: int| 0 <= i < names.len() ==> (#[trigger] path[root.len() + i] matches PathComponent::Normal(n) && n@ == names[i])
}

/// The name of the encrypted sibling of a file.
pub open spec fn encrypted_name(n: Seq<u8>) -> Seq<u8> {
    n + suffix_bytes()
}

/// A name carries the suffix as its extension: it ends in ".svlt" and has
/// something before it.
pub open spec fn has_suffix(n: Seq<u8>) -> bool {
    n.len() > 5 && n.subrange(n.len() - 5, n.len() as int) == suffix_bytes()
}

/// The name with the suffix taken off.
pub open spec fn stripped_name(n: Seq<u8>) -> Seq<u8> {
    n.subrange(0, n.len() - 5)
}

/// Relative names of the encrypted file for a file's relative names.
pub open spec fn encrypt_target(names: Seq<Seq<u8>>) -> Seq<Seq<u8>> {
    names.update(names.len() - 1, encrypted_name(names.last()))
}

/// Relative names of the decrypted file for an encrypted file's relative
/// names; `None` for a file that does not carry the suffix.
pub open spec fn decrypt_target(names: Seq<Seq<u8>>) -> Option<Seq<Seq<u8>>> {
    if names.len() > 0 && has_suffix(names.last()) {
        Some(names.update(names.len() - 1, stripped_name(names.last())))
    } else {
        None
    }
}

pub open spec fn names_view(v: Seq<Vec<u8>>) -> Seq<Seq<u8>> {
    v.map_values(|x: Vec<u8>| x@)
}

/// Whether `n` is a plain name.
pub fn name_is_valid(n: &[u8]) -> (r: bool)
    ensures
        r == name_valid(n@),
{
    if n.len() == 0 {
        return false;
    }
    if n.len() == 1 && n[0] == 0x2e {
        assert(n@ =~= seq![0x2eu8]);
        return false;
    }
    if n.len() == 2 && n[0] == 0x2e && n[1] == 0x2e {
        assert(n@ =~= seq![0x2eu8, 0x2eu8]);
        return false;
    }
    let mut i: usize = 0;
    while i < n.len()
        invariant
            i <= n@.len(),
            forall|k: int| 0 <= k < i ==> n@[k] != 0x2fu8,
        decreases n@.len() - i,
    {
        if n[i] == 0x2f {
            assert(n@.contains(0x2fu8));
            return false;
        }
        i = i + 1;
    }
    assert(!n@.contains(0x2fu8));
    assert(n@ != seq![0x2eu8]) by {
        if n@ == seq![0x2eu8] {
            assert(n@.len() == 1 && n@[0] == 0x2e);
        }
    }
    assert(n@ != seq![0x2eu8, 0x2eu8]) by {
        if n@ == seq![0x2eu8, 0x2eu8] {
            assert(n@.len() == 2 && n@[0] == 0x2e && n@[1] == 0x2e);
        }
    }
    true
}

/// Checks every component of a relative path and keeps its plain names.
pub fn validate_relative_path(rel: &Vec<PathComponent>) -> (r: Result<Vec<Vec<u8>>, SealVaultError>)
    ensures
        match validated_names(rel@) {
            Ok(ns) => r is Ok && names_view(r->Ok_0@) == ns,
            Err(e) => r == Err::<Vec<Vec<u8>>, SealVaultError>(e),
        },
{
    let mut safe: Vec<Vec<u8>> = Vec::new();
    let mut i: usize = 0;
    assert(rel@.subrange(0, rel@.len() as int) =~= rel@);
    while i < rel.len()
        invariant
            i <= rel@.len(),
            validated_names(rel@) == (match validated_names(rel@.subrange(i as int, rel@.len() as int)) {
                Ok(rest) => Ok(names_view(safe@) + rest),
                Err(e) => Err(e),
            }),
        decreases rel@.len() - i,
    {
        let ghost sub = rel@.subrange(i as int, rel@.len() as int);
        assert(sub.drop_first() =~= rel@.subrange(i + 1, rel@.len() as int));
        assert(sub[0] == rel@[i as int]);
        match &rel[i] {
            PathComponent::CurDir => {},
            PathComponent::Normal(n) => {
                if !name_is_valid(n.as_slice()) {
                    return Err(SealVaultError::UnsafePath);
                }
                let ghost before = safe@;
                safe.push(copy_range(n.as_slice(), 0, n.len()));
                proof {
                    assert(n@.subrange(0, n@.len() as int) =~= n@);
                    assert(names_view(safe@) =~= names_view(before).push(n@));
                    let after = validated_names(rel@.subrange(i + 1, rel@.len() as int));
                    match after {
                        Ok(rest) => {
                            assert(names_view(before) + (seq![n@] + rest) =~= names_view(safe@) + rest);
                        },
                        Err(e) => {},
                    }
                }
            },
            _ => {
                return Err(SealVaultError::UnsafePath);
            },
        }
        i = i + 1;
    }
    proof {
        assert(rel@.subrange(rel@.len() as int, rel@.len() as int) =~= Seq::<PathComponent>::empty());
        assert(names_view(safe@) + Seq::<Seq<u8>>::empty() =~= names_view(safe@));
    }
    Ok(safe)
}

/// Whether two components are the same.
pub fn component_matches(a: &PathComponent, b: &PathComponent) -> (r: bool)
    ensures
        r == same_component(*a, *b),
{
    match (a, b) {
        (PathComponent::Prefix(x), PathComponent::Prefix(y)) => bytes_equal(x.as_slice(), y.as_slice()),
        (PathComponent::RootDir, PathComponent::RootDir) => true,
        (PathComponent::CurDir, PathComponent::CurDir) => true,
        (PathComponent::ParentDir, PathComponent::ParentDir) => true,
        (PathComponent::Normal(x), PathComponent::Normal(y)) => bytes_equal(x.as_slice(), y.as_slice()),
        _ => false,
    }
}

/// A copy of a component.
pub fn copy_component(c: &PathComponent) -> (r: PathComponent)
    ensures
        same_component(r, *c),
{
    match c {
        PathComponent::Prefix(x) => {
            assert(x@.subrange(0, x@.len() as int) =~= x@);
            PathComponent::Prefix(copy_range(x.as_slice(), 0, x.len()))
        },
        PathComponent::RootDir => PathComponent::RootDir,
        PathComponent::CurDir => PathComponent::CurDir,
        PathComponent::ParentDir => PathComponent::ParentDir,
        PathComponent::Normal(x) => {
            assert(x@.subrange(0, x@.len() as int) =~= x@);
            PathComponent::Normal(copy_range(x.as_slice(), 0, x.len()))
        },
    }
}

/// Whether `path` begins with the components of `root`.
pub fn path_starts_with(path: &Vec<PathComponent>, root: &Vec<PathComponent>) -> (r: bool)
    ensures
        r == starts_with(path@, root@),
{
    if root.len() > path.len() {
        return false;
    }
    let mut i: usize = 0;
    while i < root.len()
        invariant
            root@.len() <= path@.len(),
            i <= root@.len(),
            forall|k: int| 0 <= k < i ==> same_component(#[trigger] path@[k], root@[k]),
        decreases root@.len() - i,
    {
        if !component_matches(&path[i], &root[i]) {
            return false;
        }
        i = i + 1;
    }
    true
}

/// Joins validated names onto the destination root, and checks that the
/// result still lies under the root.
pub fn safe_join(root: &Vec<PathComponent>, rel: &Vec<Vec<u8>>) -> (r: Result<Vec<PathComponent>, SealVaultError>)
    ensures
        r is Ok,
        r is Ok ==> joined_path(r->Ok_0@, root@, names_view(rel@)),
{
    let mut joined: Vec<PathComponent> = Vec::new();
    let mut i: usize = 0;
    while i < root.len()
        invariant
            i <= root@.len(),
            joined@.len() == i,
            forall|k: int| 0 <= k < i ==> same_component(#[trigger] joined@[k], root@[k]),
        decreases root@.len() - i,
    {
        joined.push(copy_component(&root[i]));
        i = i + 1;
    }
    let mut j: usize = 0;
    while j < rel.len()
        invariant
            j <= rel@.len(),
            joined@.len() == root@.len() + j,
            forall|k: int| 0 <= k < root@.len() ==> same_component(#[trigger] joined@[k], root@[k]),
            forall|k: int| 0 <= k < j ==> (#[trigger] joined@[root@.len() + k] matches PathComponent::Normal(n) && n@ == rel@[k]@),
        decreases rel@.len() - j,
    {
        joined.push(PathComponent::Normal(copy_range(rel[j].as_slice(), 0, rel[j].len())));
        proof {
            assert(rel@[j as int]@.subrange(0, rel@[j as int]@.len() as int) =~= rel@[j as int]@);
        }
        j = j + 1;
    }
    if !path_starts_with(&joined, root) {
        return Err(SealVaultError::PathEscapesDestination);
    }
    Ok(joined)
}

/// The file name with ".svlt" appended.
pub fn append_svlt_suffix(name: &[u8]) -> (r: Vec<u8>)
    ensures
        r@ == encrypted_name(name@),
{
    let mut out = copy_range(name, 0, name.len());
    assert(name@.subrange(0, name@.len() as int) =~= name@);
    append_bytes(&mut out, &ENCRYPTED_SUFFIX);
    assert(ENCRYPTED_SUFFIX@ =~= suffix_bytes());
    out
}

/// Whether a file name carries the ".svlt" extension.
pub fn has_svlt_extension(name: &[u8]) -> (r: bool)
    ensures
        r == has_suffix(name@),
{
    if name.len() <= 5 {
        return false;
    }
    let tail = copy_range(name, name.len() - 5, name.len());
    assert(ENCRYPTED_SUFFIX@ =~= suffix_bytes());
    bytes_equal(tail.as_slice(), &ENCRYPTED_SUFFIX)
}

/// A copy of a list of names.
fn copy_names(names: &Vec<Vec<u8>>) -> (r: Vec<Vec<u8>>)
    ensures
        names_view(r@) == names_view(names@),
{
    let mut out: Vec<Vec<u8>> = Vec::new();
    let mut i: usize = 0;
    while i < names.len()
        invariant
            i <= names@.len(),
            names_view(out@) == names_view(names@).subrange(0, i as int),
        decreases names@.len() - i,
    {
        let ghost before = out@;
        out.push(copy_range(names[i].as_slice(), 0, names[i].len()));
        proof {
            assert(names@[i as int]@.subrange(0, names@[i as int]@.len() as int) =~= names@[i as int]@);
            assert(names_view(out@) =~= names_view(before).push(names@[i as int]@));
            assert(names_view(out@) =~= names_view(names@).subrange(0, i + 1));
        }
        i = i + 1;
    }
    assert(names_view(names@).subrange(0, names@.len() as int) =~= names_view(names@));
    out
}

/// The same names with the last one replaced.
fn with_last_name(names: &Vec<Vec<u8>>, last: Vec<u8>) -> (r: Vec<Vec<u8>>)
    requires
        names@.len() > 0,
    ensures
        names_view(r@) == names_view(names@).update(names@.len() - 1, last@),
{
    let mut out = copy_names(names);
    assert(out@.len() == names@.len()) by {
        assert(names_view(out@).len() == out@.len());
        assert(names_view(names@).len() == names@.len());
    }
    let n = out.len();
    out.set(n - 1, last);
    assert(names_view(out@) =~= names_view(names@).update(names@.len() - 1, last@));
    out
}

/// The relative names of an encrypted file with ".svlt" taken off its last
/// name. A name without the suffix is no container of this format; a result
/// that is not a plain name is unsafe.
pub fn remove_svlt_extension(rel: &Vec<Vec<u8>>) -> (r: Result<Vec<Vec<u8>>, SealVaultError>)
    ensures
        match decrypt_target(names_view(rel@)) {
            None => r == Err::<Vec<Vec<u8>>, SealVaultError>(SealVaultError::InvalidInput),
            Some(t) => if name_valid(t.last()) {
                r is Ok && names_view(r->Ok_0@) == t
            } else {
                r == Err::<Vec<Vec<u8>>, SealVaultError>(SealVaultError::UnsafePath)
            },
        },
{
    if rel.len() == 0 {
        return Err(SealVaultError::InvalidInput);
    }
    let last = &rel[rel.len() - 1];
    assert(names_view(rel@).last() == last@);
    if !has_svlt_extension(last.as_slice()) {
        return Err(SealVaultError::InvalidInput);
    }
    let stem = copy_range(last.as_slice(), 0, last.len() - 5);
    if !name_is_valid(stem.as_slice()) {
        return Err(SealVaultError::UnsafePath);
    }
    Ok(with_last_name(rel, stem))
}

/// Decides what encrypting one entry of the source tree does: a directory is
/// recreated, a regular file is sealed into its name with ".svlt" appended,
/// anything else is left alone. The relative path is checked first.
pub fn plan_encrypt_entry(root: &Vec<PathComponent>, rel: &Vec<PathComponent>, kind: EntryKind) -> (r: Result<FolderAction, SealVaultError>)
    ensures
        match validated_names(rel@) {
            Err(e) => r == Err::<FolderAction, SealVaultError>(e),
            Ok(ns) => match kind {
                EntryKind::Directory => r matches Ok(FolderAction::CreateDir(p)) && joined_path(p@, root@, ns),
                EntryKind::File => if ns.len() == 0 {
                    r == Err::<FolderAction, SealVaultError>(SealVaultError::InvalidInput)
                } else {
                    r matches Ok(FolderAction::EncryptTo(p)) && joined_path(p@, root@, encrypt_target(ns))
                },
                EntryKind::Other => r matches Ok(FolderAction::Skip),
            },
        },
{
    let names = match validate_relative_path(rel) {
        Ok(n) => n,
        Err(e) => {
            return Err(e);
        },
    };
    match kind {
        EntryKind::Directory => {
            let p = match safe_join(root, &names) {
                Ok(p) => p,
                Err(e) => {
                    return Err(e);
                },
            };
            Ok(FolderAction::CreateDir(p))
        },
        EntryKind::File => {
            if names.len() == 0 {
                return Err(SealVaultError::InvalidInput);
            }
            let last = append_svlt_suffix(names[names.len() - 1].as_slice());
            let target = with_last_name(&names, last);
            let p = match safe_join(root, &target) {
                Ok(p) => p,
                Err(e) => {
                    return Err(e);
                },
            };
            Ok(FolderAction::EncryptTo(p))
        },
        EntryKind::Other => Ok(FolderAction::Skip),
    }
}

/// Decides what decrypting one entry of the encrypted tree does: a directory
/// is recreated, a regular file named with ".svlt" is opened into its name
/// without it, any other file or entry is left alone.
pub fn plan_decrypt_entry(root: &Vec<PathComponent>, rel: &Vec<PathComponent>, kind: EntryKind) -> (r: Result<FolderAction, SealVaultError>)
    ensures
        match validated_names(rel@) {
            Err(e) => r == Err::<FolderAction, SealVaultError>(e),
            Ok(ns) => match kind {
                EntryKind::Directory => r matches Ok(FolderAction::CreateDir(p)) && joined_path(p@, root@, ns),
                EntryKind::File => if ns.len() == 0 {
                    r == Err::<FolderAction, SealVaultError>(SealVaultError::InvalidInput)
                } else {
                    match decrypt_target(ns) {
                        None => r matches Ok(FolderAction::Skip),
                        Some(t) => if name_valid(t.last()) {
                            r matches Ok(FolderAction::DecryptTo(p)) && joined_path(p@, root@, t)
                        } else {
                            r == Err::<FolderAction, SealVaultError>(SealVaultError::UnsafePath)
                        },
                    }
                },
                EntryKind::Other => r matches Ok(FolderAction::Skip),
            },
        },
{
    let names = match validate_relative_path(rel) {
        Ok(n) => n,
        Err(e) => {
            return Err(e);
        },
    };
    match kind {
        EntryKind::Directory => {
            let p = match safe_join(root, &names) {
                Ok(p) => p,
                Err(e) => {
                    return Err(e);
                },
            };
            Ok(FolderAction::CreateDir(p))
        },
        EntryKind::File => {
            if names.len() == 0 {
                return Err(SealVaultError::InvalidInput);
            }
            if !has_svlt_extension(names[names.len() - 1].as_slice()) {
                assert(names_view(names@).last() == names@[names@.len() - 1]@);
                return Ok(FolderAction::Skip);
            }
            let target = match remove_svlt_extension(&names) {
                Ok(t) => t,
                Err(e) => {
                    return Err(e);
                },
            };
            let p = match safe_join(root, &target) {
                Ok(p) => p,
                Err(e) => {
                    return Err(e);
                },
            };
            Ok(FolderAction::DecryptTo(p))
        },
        EntryKind::Other => Ok(FolderAction::Skip),
    }
}

/// Taking ".svlt" off a name that had it appended gives the name back, and
/// only that much is taken off.
pub proof fn lemma_suffix_round_trip(n: Seq<u8>)
    requires
        n.len() > 0,
    ensures
        has_suffix(encrypted_name(n)),
        stripped_name(encrypted_name(n)) == n,
        encrypted_name(n).len() == n.len() + 5,
{
    let e = encrypted_name(n);
    assert(e.subrange(e.len() - 5, e.len() as int) =~= suffix_bytes());
    assert(stripped_name(e) =~= n);
}

/// Folder round trip: the file that encrypting a file of a tree writes is
/// decrypted back to the same relative path, whether or not the file's
/// name already ended in ".svlt".
pub proof fn lemma_folder_round_trip(names: Seq<Seq<u8>>)
    requires
        names.len() > 0,
        forall|i: int| 0 <= i < names.len() ==> name_valid(#[trigger] names[i]),
    ensures
        decrypt_target(encrypt_target(names)) == Some(names),
        name_valid(encrypt_target(names).last()),
{
    let last = names.last();
    assert(name_valid(names[names.len() - 1]));
    lemma_suffix_round_trip(last);
    let t = encrypt_target(names);
    assert(t.last() == encrypted_name(last));
    assert(t.update(t.len() - 1, stripped_name(t.last())) =~= names);
    let e = encrypted_name(last);
    assert(e.len() > 0);
    assert(e != seq![0x2eu8]) by {
        if e == seq![0x2eu8] {
            assert(e.len() == 1);
        }
    }
    assert(e != seq![0x2eu8, 0x2eu8]) by {
        if e == seq![0x2eu8, 0x2eu8] {
            assert(e[e.len() - 1] == 0x74u8);
        }
    }
    assert(!e.contains(0x2fu8)) by {
        if e.contains(0x2fu8) {
            let k = choose|k: int| 0 <= k < e.len() && e[k] == 0x2fu8;
            if k < last.len() {
                assert(last[k] == 0x2fu8);
                assert(last.contains(0x2fu8));
            } else {
                assert(e[k] == suffix_bytes()[k - last.len()]);
            }
        }
    }
}

/// A relative path with a parent-directory component anywhere is refused as
/// unsafe, so no destination is ever computed for it.
pub proof fn lemma_parent_dir_rejected(rel: Seq<PathComponent>, i: int)
    requires
        0 <= i < rel.len(),
        rel[i] is ParentDir,
    ensures
        validated_names(rel) == Err::<Seq<Seq<u8>>, SealVaultError>(SealVaultError::UnsafePath),
    decreases rel.len(),
{
    if i > 0 {
        assert(rel.drop_first()[i - 1] == rel[i]);
        lemma_parent_dir_rejected(rel.drop_first(), i - 1);
    }
}

} // verus!
