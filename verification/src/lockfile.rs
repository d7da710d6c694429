//! The lock that keeps two watchers off the same script: a file in the
//! temporary directory, named after the script's canonical path.

use vstd::prelude::*;
use vstd::string::StringExecFns;

verus! {

/// The SHA-1 digest of `data` as `sha1::Digest` prints it.
pub uninterp spec fn sha1_hex(data: Seq<u8>) -> Seq<char>;

/// A digit, or a letter from `a` to `f`.
pub open spec fn is_lower_hex(c: char) -> bool {
    ('0' <= c && c <= '9') || ('a' <= c && c <= 'f')
}

/// `sha1::Sha1::from` on `data`, then `digest` and its `to_string`: the
/// digest's five words, each printed as eight hexadecimal digits in lower
/// case. The digest itself is taken on trust and only given a name.
#[verifier::external_body]
fn sha1_hexdigest(data: &[u8]) -> (r: String)
    ensures
        r@ == sha1_hex(data@),
        r@.len() == 40,
        forall|i: int| 0 <= i < r@.len() ==> is_lower_hex(#[trigger] r@[i]),
{
    sha1::Sha1::from(data).digest().to_string()
}

/// The lock of one script, held until the value is given up.
#[derive(Debug, PartialEq, Eq)]
pub struct Lockfile {
    path: String,
}

/// The lock file was there already; its path is enclosed.
#[derive(Clone, Debug, PartialEq, Eq)]
pub struct AlreadyExists(pub String);

/// What is said to the user when the lock is held elsewhere: the script,
/// and the lock file to delete if no other watcher runs after all.
pub open spec fn already_running(watcher_file: Seq<char>, lock_path: Seq<char>) -> Seq<char> {
    "Another shell grunt is already running for "@ + watcher_file + ". Delete\n\n    "@ + lock_path
        + "\n\nif you sure this is untrue. Exiting."@
}

impl AlreadyExists {
    /// The diagnostic for a watcher of `watcher_file` that found the lock held.
    pub fn message(&self, watcher_file: &str) -> (text: String)
        ensures
            text@ == already_running(watcher_file@, self.0@),
    {
        let mut text = String::from_str("Another shell grunt is already running for ");
        text.append(watcher_file);
        text.append(". Delete\n\n    ");
        text.append(self.0.as_str());
        text.append("\n\nif you sure this is untrue. Exiting.");
        text
    }
}

impl View for Lockfile {
    type V = Seq<char>;

    /// The path of the lock file.
    closed spec fn view(&self) -> Seq<char> {
        self.path@
    }
}

/// The name of the lock file of the script with this canonical path.
pub open spec fn lock_name(canonical_path: Seq<char>) -> Seq<char> {
    sha1_hex(vstd::utf8::encode_utf8(canonical_path))
}

impl Lockfile {
    /// The name of the lock file, within the temporary directory, of the
    /// script with this canonical path: the digest of the path's bytes.
    /// It is forty hexadecimal digits long, so it names a file and no
    /// directory.
    pub fn file_name(canonical_path: &str) -> (name: String)
        ensures
            name@ == lock_name(canonical_path@),
            name@.len() == 40,
            forall|i: int| 0 <= i < name@.len() ==> is_lower_hex(#[trigger] name@[i]),
    {
        sha1_hexdigest(canonical_path.as_bytes())
    }

    /// Takes the lock at `path`, where the host has tried to make the lock
    /// file anew: `created` tells whether it could. A file that was there
    /// already, or could not be made, means that the lock is held elsewhere.
    pub fn new(path: String, created: bool) -> (r: Result<Lockfile, AlreadyExists>)
        ensures
            created ==> (r matches Ok(lock) && lock@ == path@),
            !created ==> (r matches Err(AlreadyExists(held)) && held@ == path@),
    {
        if created {
            Ok(Lockfile { path })
        } else {
            Err(AlreadyExists(path))
        }
    }

    /// The path of the lock file, which the host removes when the lock is given up.
    pub fn path(&self) -> (path: &String)
        ensures
            path@ == self@,
    {
        &self.path
    }
}

} // verus!
