//! What a build needs settled before it starts: the package to build, the first
//! arguments for the compiler driver, and the name of the file that the record
//! stream is written to.

use vstd::prelude::*;
use sha2::{Digest, Sha256};
use crate::assemble::texts;
use crate::text::{chars_of, push_range, push_str, string_of};

verus! {

/// The SHA-256 digest of the UTF-8 bytes of `data`, as lowercase hexadecimal digits.
pub uninterp spec fn sha256_hex(data: Seq<char>) -> Seq<char>;

/// Hashes `data` with `sha2::Sha256` (`new`, `update`, `finalize`) and formats the
/// digest with `{:x}`. The contract names the digest, which depends on the text
/// alone, and states its length: the digest has 32 bytes and the formatter
/// writes two digits for each.
#[verifier::external_body]
fn digest_hex(data: &str) -> (hex: String)
    ensures
        hex@ == sha256_hex(data@),
        hex@.len() == 64,
{
    let mut hasher = Sha256::new();
    hasher.update(data);
    format!("{:x}", hasher.finalize())
}

/// A package of the workspace, as far as preparing needs it.
#[derive(Debug, Clone)]
pub struct PackageInfo {
    /// The name of the package.
    pub name: String,
    /// The path of its manifest.
    pub manifest_path: String,
}

/// What preparing settles.
#[derive(Debug, Clone)]
pub struct Prepared {
    /// The index of the package to build.
    pub package: usize,
    /// The first arguments for the compiler driver.
    pub init_args: Vec<String>,
    /// The name of the file that holds the record stream.
    pub type_def_file: String,
}

/// The number of digest digits that go into the file name.
pub const SHORT_HASH_LEN: usize = 8;

/// The name of the record file of a package: the package name, a hyphen, the first
/// eight digits of the digest of its manifest path, and a fixed ending.
pub open spec fn type_def_file_name(name: Seq<char>, manifest_path: Seq<char>) -> Seq<char> {
    name + "-"@ + sha256_hex(manifest_path).subrange(0, SHORT_HASH_LEN as int)
        + ".napi_type_def.tmp"@
}

/// Whether `args` holds the argument `arg`.
pub open spec fn has_arg(args: Seq<Seq<char>>, arg: Seq<char>) -> bool {
    exists|i: int| 0 <= i < args.len() && args[i] == arg
}

/// The first arguments for the compiler driver: `build`, and `--release` where a
/// release build is asked for and the caller's own arguments are given and do not
/// hold it already.
pub open spec fn initial_args(release: bool, cargo_args: Option<Seq<Seq<char>>>) -> Seq<Seq<char>> {
    match cargo_args {
        Some(args) => if release && !has_arg(args, "--release"@) {
            seq!["build"@, "--release"@]
        } else {
            seq!["build"@]
        },
        None => seq!["build"@],
    }
}

/// The texts of the caller's arguments, if there are any.
pub open spec fn arg_texts(cargo_args: Option<Vec<String>>) -> Option<Seq<Seq<char>>> {
    match cargo_args {
        Some(args) => Some(texts(args@)),
        None => None,
    }
}

/// The index of the first package whose manifest is `cargo_file`, or the number of
/// packages when there is none.
pub open spec fn package_index(paths: Seq<Seq<char>>, cargo_file: Seq<char>) -> int
    decreases paths.len(),
{
    if paths.len() == 0 || paths[0] == cargo_file {
        0
    } else {
        1 + package_index(paths.drop_first(), cargo_file)
    }
}

/// The manifest paths of the packages, in order.
pub open spec fn manifest_paths(packages: Seq<PackageInfo>) -> Seq<Seq<char>> {
    Seq::new(packages.len(), |i: int| packages[i].manifest_path@)
}

/// `package_index` is the least index that holds the path, or the length.
pub proof fn lemma_package_index(paths: Seq<Seq<char>>, cargo_file: Seq<char>, k: int)
    requires
        0 <= k <= paths.len(),
        forall|j: int| 0 <= j < k ==> paths[j] != cargo_file,
        k < paths.len() ==> paths[k] == cargo_file,
    ensures
        package_index(paths, cargo_file) == k,
    decreases paths.len(),
{
    if paths.len() == 0 || paths[0] == cargo_file {
    } else {
        let t = paths.drop_first();
        assert forall|j: int| 0 <= j < k - 1 implies t[j] != cargo_file by {
            assert(t[j] == paths[j + 1]);
        }
        lemma_package_index(t, cargo_file, k - 1);
    }
}

/// The name of the record file of a package; see [`type_def_file_name`].
pub fn type_def_file(name: &str, manifest_path: &str) -> (file: String)
    ensures
        file@ == type_def_file_name(name@, manifest_path@),
{
    let hex = digest_hex(manifest_path);
    let digits = chars_of(hex.as_str());
    let mut out: Vec<char> = Vec::new();
    push_str(&mut out, name);
    push_str(&mut out, "-");
    push_range(&mut out, &digits, 0, SHORT_HASH_LEN);
    push_str(&mut out, ".napi_type_def.tmp");
    assert(out@ =~= type_def_file_name(name@, manifest_path@));
    string_of(&out)
}

/// Whether `args` holds the argument `arg`.
pub fn holds_arg(args: &Vec<String>, arg: &str) -> (r: bool)
    ensures
        r == has_arg(texts(args@), arg@),
{
    let wanted = arg.to_owned();
    let mut i: usize = 0;
    while i < args.len()
        invariant
            i <= args.len(),
            wanted@ == arg@,
            forall|j: int| 0 <= j < i ==> #[trigger] texts(args@)[j] != arg@,
        decreases args.len() - i,
    {
        if args[i] == wanted {
            assert(texts(args@)[i as int] == arg@);
            return true;
        }
        i = i + 1;
    }
    false
}

/// The first arguments for the compiler driver; see [`initial_args`].
pub fn init_args(release: bool, cargo_args: &Option<Vec<String>>) -> (args: Vec<String>)
    ensures
        texts(args@) == initial_args(release, arg_texts(*cargo_args)),
{
    let mut args: Vec<String> = Vec::new();
    args.push("build".to_owned());
    match cargo_args {
        Some(given) => {
            if release && !holds_arg(given, "--release") {
                args.push("--release".to_owned());
            }
        },
        None => {},
    }
    assert(texts(args@) =~= initial_args(release, arg_texts(*cargo_args)));
    args
}

/// What preparing gives: nothing where no package has the manifest `cargo_file`;
/// else the first such package, the first arguments, and the name of its record
/// file.
pub open spec fn prepared(
    packages: Seq<PackageInfo>,
    cargo_file: Seq<char>,
    release: bool,
    cargo_args: Option<Seq<Seq<char>>>,
) -> Option<(int, Seq<Seq<char>>, Seq<char>)> {
    let k = package_index(manifest_paths(packages), cargo_file);
    if 0 <= k < packages.len() {
        Some(
            (
                k,
                initial_args(release, cargo_args),
                type_def_file_name(packages[k].name@, packages[k].manifest_path@),
            ),
        )
    } else {
        None
    }
}

/// The value of what preparing settled.
pub open spec fn prepared_view(p: Option<Prepared>) -> Option<(int, Seq<Seq<char>>, Seq<char>)> {
    match p {
        Some(p) => Some((p.package as int, texts(p.init_args@), p.type_def_file@)),
        None => None,
    }
}

/// Settles what a build needs before it starts.
///
/// `packages` are the packages of the workspace and `cargo_file` is the manifest
/// in the working directory. The package to build is the first one with that
/// manifest; without one there is nothing to prepare. `release` and `cargo_args`
/// decide the first arguments for the compiler driver.
pub fn prepare(
    packages: &Vec<PackageInfo>,
    cargo_file: &str,
    release: bool,
    cargo_args: &Option<Vec<String>>,
) -> (r: Option<Prepared>)
    ensures
        prepared_view(r) == prepared(packages@, cargo_file@, release, arg_texts(*cargo_args)),
{
    let wanted = cargo_file.to_owned();
    let mut i: usize = 0;
    while i < packages.len() && packages[i].manifest_path != wanted
        invariant
            i <= packages.len(),
            wanted@ == cargo_file@,
            forall|j: int| 0 <= j < i ==> #[trigger] manifest_paths(packages@)[j] != cargo_file@,
        decreases packages.len() - i,
    {
        i = i + 1;
    }
    proof {
        lemma_package_index(manifest_paths(packages@), cargo_file@, i as int);
    }
    if i == packages.len() {
        return None;
    }
    let package = &packages[i];
    Some(
        Prepared {
            package: i,
            init_args: init_args(release, cargo_args),
            type_def_file: type_def_file(package.name.as_str(), package.manifest_path.as_str()),
        },
    )
}

} // verus!
