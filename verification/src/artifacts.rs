//! Fingerprint build artifacts to detect equivalent and redundant mutants.
//!
//! After building a mutant, its compiled test executables are compared, byte for byte, against the unmutated
//! baseline and against every other mutant built so far. If they match, no test run can possibly tell the two
//! apart, so the mutant is either equivalent (matches the baseline) or redundant (matches an earlier mutant), and
//! the test phase can be skipped.

use std::hash::{DefaultHasher, Hasher};
use vstd::prelude::*;
use vstd::std_specs::hash::DefaultHasherAdditionalSpecFns;
use vstd::string::*;
use vstd::utf8::*;
use crate::mutant;
use crate::options::Options;
use crate::paths;
use crate::paths::{file_extension, join_path};
use crate::text;
use crate::text::same_text;

verus! {

/// A fingerprint of the test-executable artifacts produced by one build.
///
/// This is a 128-bit digest (two independent 64-bit runs over the same input) of the sorted `(file_name, contents)`
/// pairs of every test executable found in the build's `deps/` directory.
#[derive(Debug, Clone, Copy, PartialEq, Eq, Hash, Structural)]
pub struct Fingerprint(u64, u64);

impl View for Fingerprint {
    type V = (u64, u64);

    closed spec fn view(&self) -> (u64, u64) {
        (self.0, self.1)
    }
}

/// The subdirectory of `target/` for a profile: cargo does not give every named profile its own directory.
pub open spec fn profile_dir(profile: Option<Seq<char>>) -> Seq<char> {
    match profile {
        None => "debug"@,
        Some(name) => {
            if name == "dev"@ || name == "test"@ {
                "debug"@
            } else if name == "release"@ || name == "bench"@ {
                "release"@
            } else {
                name
            }
        },
    }
}

/// The subdirectory of `target/` that cargo builds into for the given options.
///
/// Cargo does not give every named profile its own directory: the built-in `dev` and `test` profiles both build
/// into `target/debug`, and `release` and `bench` both build into `target/release`. Any other (custom) profile name
/// is used verbatim as the directory name. No profile selected means the default `test` profile.
pub fn profile_dir_name(options: &Options) -> (r: &str)
    ensures
        r@ == profile_dir(mutant::optional_text(options.profile)),
{
    match &options.profile {
        None => "debug",
        Some(name) => {
            let name = name.as_str();
            if same_text(name, "dev") || same_text(name, "test") {
                "debug"
            } else if same_text(name, "release") || same_text(name, "bench") {
                "release"
            } else {
                name
            }
        },
    }
}

/// That an extension is that of a build output which is not a test executable.
pub open spec fn is_other_output(extension: Seq<char>) -> bool {
    ||| extension == "d"@
    ||| extension == "rmeta"@
    ||| extension == "rlib"@
    ||| extension == "o"@
    ||| extension == "dylib"@
    ||| extension == "so"@
}

/// True if a file looks like a test executable produced by `cargo test --no-run` or `cargo nextest run --no-run`, on
/// a Unix system: a regular file that someone may execute, as opposed to `.d`, `.rmeta`, `.rlib`, `.o`, shared
/// libraries (which are executable on some platforms but aren't test binaries), or other build output in `deps/`.
pub fn is_test_executable(is_file: bool, mode: u32, extension: Option<&str>) -> (r: bool)
    ensures
        r <==> is_file && mode & 0o111 != 0 && !(extension matches Some(e) && is_other_output(e@)),
{
    let other = match extension {
        Some(e) => same_text(e, "d") || same_text(e, "rmeta") || same_text(e, "rlib") || same_text(e, "o")
            || same_text(e, "dylib") || same_text(e, "so"),
        None => false,
    };
    is_file && mode & 0o111 != 0 && !other
}

/// True if a file looks like a test executable, on Windows: a regular file with the extension `exe`.
pub fn is_windows_test_executable(is_file: bool, extension: Option<&str>) -> (r: bool)
    ensures
        r <==> is_file && (extension matches Some(e) && e@ == "exe"@),
{
    match extension {
        Some(e) => is_file && same_text(e, "exe"),
        None => false,
    }
}

/// A file in the directory that cargo builds into.
pub struct BuildFile {
    /// The absolute path of the file.
    pub path: String,
    /// Whether it is a regular file.
    pub is_file: bool,
    /// Its permissions, on a Unix system.
    pub mode: u32,
}

/// That a file with a given extension looks like a test executable.
pub open spec fn looks_executable(file: BuildFile, extension: Option<Seq<char>>, windows: bool) -> bool {
    if windows {
        file.is_file && extension == Some("exe"@)
    } else {
        file.is_file && file.mode & 0o111 != 0 && !(extension matches Some(e) && is_other_output(e))
    }
}

/// The paths of the test executables among the first `n` files, whose extensions are given.
pub open spec fn executables_among(
    files: Seq<BuildFile>,
    extensions: Seq<Option<Seq<char>>>,
    windows: bool,
    n: int,
) -> Seq<Seq<char>>
    decreases n,
{
    if n <= 0 {
        Seq::empty()
    } else {
        let before = executables_among(files, extensions, windows, n - 1);
        if looks_executable(files[n - 1], extensions[n - 1], windows) {
            before.push(files[n - 1].path@)
        } else {
            before
        }
    }
}

/// That each of some files can have the extension that is given for it.
pub open spec fn fit_extensions(files: Seq<BuildFile>, extensions: Seq<Option<Seq<char>>>) -> bool {
    extensions.len() == files.len() && forall|i: int|
        0 <= i < files.len() ==> paths::fits_extension((#[trigger] files[i]).path@, extensions[i])
}

/// The paths of some files.
pub open spec fn file_paths(files: Seq<BuildFile>) -> Seq<Seq<char>> {
    Seq::new(files.len(), |i: int| files[i].path@)
}

/// The test executables among some files are some of them, and each once if each file is there once.
proof fn lemma_executables_are_files(
    files: Seq<BuildFile>,
    extensions: Seq<Option<Seq<char>>>,
    windows: bool,
    n: int,
)
    requires
        0 <= n <= files.len(),
    ensures
        forall|i: int|
            0 <= i < executables_among(files, extensions, windows, n).len() ==> file_paths(files).take(n).contains(
                #[trigger] executables_among(files, extensions, windows, n)[i],
            ),
        file_paths(files).no_duplicates() ==> executables_among(files, extensions, windows, n).no_duplicates(),
    decreases n,
{
    if n > 0 {
        lemma_executables_are_files(files, extensions, windows, n - 1);
        let all = file_paths(files);
        let before = executables_among(files, extensions, windows, n - 1);
        let now = executables_among(files, extensions, windows, n);
        assert forall|i: int| 0 <= i < now.len() implies all.take(n).contains(#[trigger] now[i]) by {
            if i < before.len() {
                assert(all.take(n - 1).contains(before[i]));
                let j = choose|j: int| 0 <= j < n - 1 && #[trigger] all.take(n - 1)[j] == before[i];
                assert(all.take(n)[j] == now[i]);
            } else {
                assert(all.take(n)[n - 1] == now[i]);
            }
        }
        if all.no_duplicates() {
            assert forall|i: int| 0 <= i < before.len() implies #[trigger] before[i] != files[n - 1].path@ by {
                assert(all.take(n - 1).contains(before[i]));
                let j = choose|j: int| 0 <= j < n - 1 && #[trigger] all.take(n - 1)[j] == before[i];
                assert(all[j] != all[n - 1]);
            }
        }
    }
}

/// List the test executables among the files in the directory that cargo builds into, sorted by path (equivalently, by file
/// name, since they share a parent directory).
///
/// Which extension a file has is stated of plain names, whatever directory they are in.
pub fn test_executables(files: &Vec<BuildFile>, windows: bool) -> (r: Vec<String>)
    ensures
        text::in_order(text::texts(r@)),
        file_paths(files@).no_duplicates() ==> text::texts(r@).no_duplicates(),
        exists|extensions: Seq<Option<Seq<char>>>| #[trigger]
            fit_extensions(files@, extensions) && text::texts(r@).to_multiset() == executables_among(
                files@,
                extensions,
                windows,
                files@.len() as int,
            ).to_multiset(),
{
    let mut found: Vec<String> = Vec::new();
    let ghost mut extensions: Seq<Option<Seq<char>>> = Seq::empty();
    assert(text::texts(found@) =~= executables_among(files@, extensions, windows, 0));
    for i in 0..files.len()
        invariant
            extensions.len() == i,
            forall|j: int| 0 <= j < i ==> paths::fits_extension((#[trigger] files@[j]).path@, extensions[j]),
            text::texts(found@) == executables_among(files@, extensions, windows, i as int),
    {
        let file = &files[i];
        let ghost before = found@;
        let extension = file_extension(file.path.as_str());
        let suffix = match &extension {
            Some(e) => Some(e.as_str()),
            None => None,
        };
        let wanted = if windows {
            is_windows_test_executable(file.is_file, suffix)
        } else {
            is_test_executable(file.is_file, file.mode, suffix)
        };
        if wanted {
            found.push(file.path.clone());
        }
        proof {
            let known = extensions;
            extensions = extensions.push(mutant::optional_text(extension));
            assert(known =~= extensions.take(known.len() as int));
            lemma_executables_of_known(files@, known, extensions, windows, i as int);
            if wanted {
                assert(text::texts(found@) =~= text::texts(before).push(file.path@));
            }
        }
    }
    let sorted = text::sort_texts(&found);
    proof {
        assert(fit_extensions(files@, extensions));
        if file_paths(files@).no_duplicates() {
            lemma_executables_are_files(files@, extensions, windows, files@.len() as int);
            text::texts(found@).lemma_multiset_has_no_duplicates();
            text::texts(sorted@).lemma_multiset_has_no_duplicates_conv();
        }
    }
    sorted
}

/// The first test executables depend on the first extensions.
proof fn lemma_executables_of_known(
    files: Seq<BuildFile>,
    known: Seq<Option<Seq<char>>>,
    more: Seq<Option<Seq<char>>>,
    windows: bool,
    n: int,
)
    requires
        n <= known.len() <= more.len(),
        known == more.take(known.len() as int),
    ensures
        executables_among(files, known, windows, n) == executables_among(files, more, windows, n),
    decreases n,
{
    if n > 0 {
        lemma_executables_of_known(files, known, more, windows, n - 1);
        assert(known[n - 1] == more[n - 1]);
    }
}

/// The test executables in a directory are the same whatever else is in it.
pub proof fn other_files_do_not_matter(
    files: Seq<BuildFile>,
    extensions: Seq<Option<Seq<char>>>,
    windows: bool,
    n: int,
    more: Seq<BuildFile>,
    more_extensions: Seq<Option<Seq<char>>>,
)
    requires
        0 <= n <= more.len(),
        files.len() == extensions.len(),
        more.len() == more_extensions.len(),
        forall|i: int| 0 <= i < more.len() ==> !looks_executable(#[trigger] more[i], more_extensions[i], windows),
    ensures
        executables_among(files + more, extensions + more_extensions, windows, files.len() + n) == executables_among(
            files,
            extensions,
            windows,
            files.len() as int,
        ),
    decreases n,
{
    if n > 0 {
        other_files_do_not_matter(files, extensions, windows, n - 1, more, more_extensions);
        assert(!looks_executable(more[n - 1], more_extensions[n - 1], windows));
        assert((files + more)[files.len() + n - 1] == more[n - 1]);
        assert((extensions + more_extensions)[files.len() + n - 1] == more_extensions[n - 1]);
    } else {
        assert(extensions =~= (extensions + more_extensions).take(extensions.len() as int));
        lemma_executables_of_first(files, more, extensions, extensions + more_extensions, windows, files.len() as int);
    }
}

/// The test executables among the first files depend on those alone.
proof fn lemma_executables_of_first(
    files: Seq<BuildFile>,
    more: Seq<BuildFile>,
    extensions: Seq<Option<Seq<char>>>,
    all_extensions: Seq<Option<Seq<char>>>,
    windows: bool,
    n: int,
)
    requires
        n <= files.len() == extensions.len() <= all_extensions.len(),
        extensions == all_extensions.take(extensions.len() as int),
    ensures
        executables_among(files + more, all_extensions, windows, n) == executables_among(files, extensions, windows, n),
    decreases n,
{
    if n > 0 {
        lemma_executables_of_first(files, more, extensions, all_extensions, windows, n - 1);
        assert((files + more)[n - 1] == files[n - 1]);
        assert(extensions[n - 1] == all_extensions[n - 1]);
    }
}

/// The directory in a build directory that cargo puts test executables into.
///
/// Where it is is stated of paths behind which others can be put everywhere, up to what does not change where a path leads.
pub fn deps_dir(build_dir: &str, options: &Options) -> (r: String)
    ensures
        build_dir@.len() > 0 && paths::workable(build_dir@) && paths::joinable(
            profile_dir(mutant::optional_text(options.profile)),
        ) ==> paths::components(r@) == paths::components(
            build_dir@ + "/target/"@ + profile_dir(mutant::optional_text(options.profile)) + "/deps"@,
        ),
{
    let target = join_path(build_dir, "target");
    let profile = profile_dir_name(options);
    let in_profile = join_path(target.as_str(), profile);
    let deps = join_path(in_profile.as_str(), "deps");
    proof {
        if build_dir@.len() > 0 && paths::workable(build_dir@) && paths::joinable(
            profile_dir(mutant::optional_text(options.profile)),
        ) {
            reveal_strlit("target");
            reveal_strlit("deps");
            reveal_strlit("/");
            reveal_strlit("/target/");
            reveal_strlit("/deps");
            assert(paths::joinable("target"@));
            assert(paths::joinable("deps"@));
            let first = paths::under(build_dir@, "target"@);
            let second = paths::under(first, profile@);
            paths::lemma_joined_path(build_dir@, "target"@, target@);
            paths::lemma_joined_path(target@, profile@, in_profile@);
            paths::lemma_joined_path(in_profile@, "deps"@, deps@);
            paths::lemma_under_same(target@, first, profile@);
            paths::lemma_under_same(in_profile@, second, "deps"@);
            assert(paths::under(second, "deps"@) =~= build_dir@ + "/target/"@ + profile@ + "/deps"@);
        }
    }
    deps
}

/// A number as eight bytes, the lowest first.
pub open spec fn eight_bytes(n: u64) -> Seq<u8> {
    seq![
        ((n >> 0u64) & 0xff) as u8,
        ((n >> 8u64) & 0xff) as u8,
        ((n >> 16u64) & 0xff) as u8,
        ((n >> 24u64) & 0xff) as u8,
        ((n >> 32u64) & 0xff) as u8,
        ((n >> 40u64) & 0xff) as u8,
        ((n >> 48u64) & 0xff) as u8,
        ((n >> 56u64) & 0xff) as u8,
    ]
}

/// One artifact as bytes: its name, a byte that no text holds, the length of its contents, and its contents.
pub open spec fn artifact_bytes(name: Seq<char>, contents: Seq<u8>) -> Seq<u8> {
    encode_utf8(name) + seq![0xffu8] + eight_bytes(contents.len() as u64) + contents
}

/// The first `n` artifacts as bytes, one behind the other.
pub open spec fn artifacts_bytes(artifacts: Seq<(Seq<char>, Seq<u8>)>, n: int) -> Seq<u8>
    decreases n,
{
    if n <= 0 {
        Seq::<u8>::empty()
    } else {
        artifacts_bytes(artifacts, n - 1) + artifact_bytes(artifacts[n - 1].0, artifacts[n - 1].1)
    }
}

/// The models of some artifacts: names and contents.
pub open spec fn artifact_models(artifacts: Seq<(String, Vec<u8>)>) -> Seq<(Seq<char>, Seq<u8>)> {
    Seq::new(artifacts.len(), |i: int| (artifacts[i].0@, artifacts[i].1@))
}

/// The digest that `std::hash::DefaultHasher` makes of some bytes.
pub open spec fn digest(bytes: Seq<u8>) -> u64 {
    DefaultHasher::spec_finish(seq![bytes])
}

/// The digest of some bytes.
fn hash_bytes(bytes: &Vec<u8>) -> (r: u64)
    ensures
        r == digest(bytes@),
{
    let mut hasher = DefaultHasher::new();
    hasher.write(bytes.as_slice());
    assert(hasher@ =~= seq![bytes@]);
    hasher.finish()
}

/// Appends a number as eight bytes, the lowest first.
fn push_eight_bytes(out: &mut Vec<u8>, n: u64)
    ensures
        final(out)@ == old(out)@ + eight_bytes(n),
{
    let ghost before = out@;
    out.push(((n >> 0u64) & 0xff) as u8);
    out.push(((n >> 8u64) & 0xff) as u8);
    out.push(((n >> 16u64) & 0xff) as u8);
    out.push(((n >> 24u64) & 0xff) as u8);
    out.push(((n >> 32u64) & 0xff) as u8);
    out.push(((n >> 40u64) & 0xff) as u8);
    out.push(((n >> 48u64) & 0xff) as u8);
    out.push(((n >> 56u64) & 0xff) as u8);
    assert(out@ =~= before + eight_bytes(n));
}

/// Appends some bytes.
fn push_bytes(out: &mut Vec<u8>, bytes: &[u8])
    ensures
        final(out)@ == old(out)@ + bytes@,
{
    let ghost before = out@;
    for i in 0..bytes.len()
        invariant
            out@ == before + bytes@.take(i as int),
    {
        out.push(bytes[i]);
        assert(out@ =~= before + bytes@.take(i + 1));
    }
    assert(bytes@.take(bytes@.len() as int) =~= bytes@);
}

/// That `r` is the fingerprint of some artifacts: there is one if there are artifacts, made of two digests of them.
pub open spec fn fingerprinted(artifacts: Seq<(Seq<char>, Seq<u8>)>, r: Option<Fingerprint>) -> bool {
    let bytes = artifacts_bytes(artifacts, artifacts.len() as int);
    match r {
        Some(f) => artifacts.len() > 0 && f@ == (digest(bytes), digest(seq![0x5au8] + bytes)),
        None => artifacts.len() == 0,
    }
}

/// Two fingerprints are the same if their digests are.
pub proof fn fingerprints_are_known_by_their_digests(a: Fingerprint, b: Fingerprint)
    ensures
        a == b <==> a@ == b@,
{
}

/// The same artifacts give the same fingerprint, whenever and wherever they were built, and no artifacts give none.
pub proof fn same_artifacts_have_the_same_fingerprint(
    artifacts: Seq<(Seq<char>, Seq<u8>)>,
    a: Option<Fingerprint>,
    b: Option<Fingerprint>,
)
    requires
        fingerprinted(artifacts, a),
        fingerprinted(artifacts, b),
    ensures
        a == b,
        a is None <==> artifacts.len() == 0,
{
    if artifacts.len() > 0 {
        fingerprints_are_known_by_their_digests(a->0, b->0);
    }
}

/// Compute a fingerprint of test-executable artifacts, given as file names and contents.
///
/// Returns `None` if there are none. Callers must treat `None` as "unknown, so test the mutant normally": missing
/// information must never be interpreted as "equivalent".
pub fn fingerprint_build_artifacts(artifacts: &Vec<(String, Vec<u8>)>) -> (r: Option<Fingerprint>)
    ensures
        fingerprinted(artifact_models(artifacts@), r),
{
    if artifacts.len() == 0 {
        return None;
    }
    let ghost models = artifact_models(artifacts@);
    let mut first: Vec<u8> = Vec::new();
    let mut second: Vec<u8> = Vec::new();
    // Start the second input differently, so that it's not simply digesting the same stream twice.
    second.push(0x5a);
    assert(second@ =~= seq![0x5au8] + first@);
    for i in 0..artifacts.len()
        invariant
            models == artifact_models(artifacts@),
            first@ == artifacts_bytes(models, i as int),
            second@ == seq![0x5au8] + first@,
    {
        let ghost before = first@;
        let mut one: Vec<u8> = Vec::new();
        push_bytes(&mut one, artifacts[i].0.as_str().as_bytes());
        one.push(0xff);
        push_eight_bytes(&mut one, artifacts[i].1.len() as u64);
        push_bytes(&mut one, artifacts[i].1.as_slice());
        assert(one@ =~= artifact_bytes(models[i as int].0, models[i as int].1));
        push_bytes(&mut first, one.as_slice());
        push_bytes(&mut second, one.as_slice());
        assert(second@ =~= seq![0x5au8] + first@);
    }
    Some(Fingerprint(hash_bytes(&first), hash_bytes(&second)))
}

/// No byte of the encoding of a character is 0xff.
proof fn lemma_scalar_has_no_ff(c: u32)
    requires
        is_scalar(c),
    ensures
        forall|i: int| 0 <= i < encode_scalar(c).len() ==> encode_scalar(c)[i] != 0xffu8,
{
    if has_width_1_encoding(c) {
        assert(leading_byte_width_1(c) != 0xffu8) by (bit_vector)
            requires
                has_width_1_encoding(c),
        ;
    } else if has_width_2_encoding(c) {
        assert(leading_byte_width_2(c) != 0xffu8 && last_continuation_byte(c) != 0xffu8) by (bit_vector)
            requires
                has_width_2_encoding(c),
        ;
    } else if has_width_3_encoding(c) {
        assert(leading_byte_width_3(c) != 0xffu8 && second_last_continuation_byte(c) != 0xffu8
            && last_continuation_byte(c) != 0xffu8) by (bit_vector)
            requires
                has_width_3_encoding(c),
        ;
    } else {
        assert(leading_byte_width_4(c) != 0xffu8 && third_last_continuation_byte(c) != 0xffu8
            && second_last_continuation_byte(c) != 0xffu8 && last_continuation_byte(c) != 0xffu8) by (bit_vector)
            requires
                has_width_4_encoding(c),
        ;
    }
}

/// No byte of the encoding of a text is 0xff.
proof fn lemma_text_has_no_ff(s: Seq<char>)
    ensures
        forall|i: int| 0 <= i < encode_utf8(s).len() ==> encode_utf8(s)[i] != 0xffu8,
    decreases s.len(),
{
    if s.len() > 0 {
        char_is_scalar(s[0]);
        lemma_scalar_has_no_ff(s[0] as u32);
        lemma_text_has_no_ff(s.drop_first());
        let head = encode_scalar(s[0] as u32);
        let tail = encode_utf8(s.drop_first());
        assert forall|i: int| 0 <= i < encode_utf8(s).len() implies encode_utf8(s)[i] != 0xffu8 by {
            if i < head.len() {
                assert(encode_utf8(s)[i] == head[i]);
            } else {
                assert(encode_utf8(s)[i] == tail[i - head.len()]);
            }
        }
    }
}

/// A number is known by its eight bytes.
proof fn lemma_eight_bytes_injective(a: u64, b: u64)
    requires
        eight_bytes(a) == eight_bytes(b),
    ensures
        a == b,
{
    let x = eight_bytes(a);
    let y = eight_bytes(b);
    assert(x[0] == y[0] && x[1] == y[1] && x[2] == y[2] && x[3] == y[3]);
    assert(x[4] == y[4] && x[5] == y[5] && x[6] == y[6] && x[7] == y[7]);
    assert(a == b) by (bit_vector)
        requires
            ((a >> 0u64) & 0xff) as u8 == ((b >> 0u64) & 0xff) as u8,
            ((a >> 8u64) & 0xff) as u8 == ((b >> 8u64) & 0xff) as u8,
            ((a >> 16u64) & 0xff) as u8 == ((b >> 16u64) & 0xff) as u8,
            ((a >> 24u64) & 0xff) as u8 == ((b >> 24u64) & 0xff) as u8,
            ((a >> 32u64) & 0xff) as u8 == ((b >> 32u64) & 0xff) as u8,
            ((a >> 40u64) & 0xff) as u8 == ((b >> 40u64) & 0xff) as u8,
            ((a >> 48u64) & 0xff) as u8 == ((b >> 48u64) & 0xff) as u8,
            ((a >> 56u64) & 0xff) as u8 == ((b >> 56u64) & 0xff) as u8,
    ;
}

/// Where the bytes of an artifact end can be told from the bytes alone.
proof fn lemma_artifact_bytes_prefix_free(
    n1: Seq<char>,
    c1: Seq<u8>,
    r1: Seq<u8>,
    n2: Seq<char>,
    c2: Seq<u8>,
    r2: Seq<u8>,
)
    requires
        artifact_bytes(n1, c1) + r1 == artifact_bytes(n2, c2) + r2,
        c1.len() <= u64::MAX,
        c2.len() <= u64::MAX,
    ensures
        n1 == n2,
        c1 == c2,
        r1 == r2,
{
    let b1 = artifact_bytes(n1, c1) + r1;
    let b2 = artifact_bytes(n2, c2) + r2;
    let e1 = encode_utf8(n1);
    let e2 = encode_utf8(n2);
    lemma_text_has_no_ff(n1);
    lemma_text_has_no_ff(n2);
    assert(b1[e1.len() as int] == 0xffu8);
    assert(b2[e2.len() as int] == 0xffu8);
    if e1.len() < e2.len() {
        assert(b2[e1.len() as int] == e2[e1.len() as int]);
    }
    if e2.len() < e1.len() {
        assert(b1[e2.len() as int] == e1[e2.len() as int]);
    }
    let k = e1.len() as int;
    assert(e1 =~= b1.take(k));
    assert(e2 =~= b2.take(k));
    crate::text::lemma_encode_injective(n1, n2);
    assert(eight_bytes(c1.len() as u64) =~= b1.subrange(k + 1, k + 9));
    assert(eight_bytes(c2.len() as u64) =~= b2.subrange(k + 1, k + 9));
    lemma_eight_bytes_injective(c1.len() as u64, c2.len() as u64);
    assert(c1 =~= b1.subrange(k + 9, k + 9 + c1.len()));
    assert(c2 =~= b2.subrange(k + 9, k + 9 + c1.len()));
    assert(r1 =~= b1.skip(k + 9 + c1.len()));
    assert(r2 =~= b2.skip(k + 9 + c1.len()));
}

/// The bytes of some artifacts start with those of the first.
proof fn lemma_artifacts_bytes_front(artifacts: Seq<(Seq<char>, Seq<u8>)>, n: int)
    requires
        1 <= n <= artifacts.len(),
    ensures
        artifacts_bytes(artifacts, n) == artifact_bytes(artifacts[0].0, artifacts[0].1) + artifacts_bytes(
            artifacts.drop_first(),
            n - 1,
        ),
    decreases n,
{
    let front = artifact_bytes(artifacts[0].0, artifacts[0].1);
    if n == 1 {
        assert(artifacts_bytes(artifacts, 0) =~= Seq::<u8>::empty());
        assert(artifacts_bytes(artifacts, 1) =~= front);
        assert(artifacts_bytes(artifacts, 1) =~= front + artifacts_bytes(artifacts.drop_first(), 0));
    } else {
        lemma_artifacts_bytes_front(artifacts, n - 1);
        assert(artifacts.drop_first()[n - 2] == artifacts[n - 1]);
        assert(artifacts_bytes(artifacts, n) =~= front + artifacts_bytes(artifacts.drop_first(), n - 1));
    }
}

/// Different artifacts are digested from different bytes: two builds have the same input to their fingerprints only
/// where every name and every content is the same.
pub proof fn different_artifacts_differ_in_bytes(a: Seq<(Seq<char>, Seq<u8>)>, b: Seq<(Seq<char>, Seq<u8>)>)
    requires
        forall|i: int| 0 <= i < a.len() ==> (#[trigger] a[i]).1.len() <= u64::MAX,
        forall|i: int| 0 <= i < b.len() ==> (#[trigger] b[i]).1.len() <= u64::MAX,
        artifacts_bytes(a, a.len() as int) == artifacts_bytes(b, b.len() as int),
    ensures
        a == b,
    decreases a.len(),
{
    if a.len() == 0 || b.len() == 0 {
        if a.len() > 0 {
            lemma_artifacts_bytes_front(a, a.len() as int);
        }
        if b.len() > 0 {
            lemma_artifacts_bytes_front(b, b.len() as int);
        }
        assert(a =~= b);
    } else {
        lemma_artifacts_bytes_front(a, a.len() as int);
        lemma_artifacts_bytes_front(b, b.len() as int);
        let ra = a.drop_first();
        let rb = b.drop_first();
        lemma_artifact_bytes_prefix_free(
            a[0].0,
            a[0].1,
            artifacts_bytes(ra, a.len() - 1),
            b[0].0,
            b[0].1,
            artifacts_bytes(rb, b.len() - 1),
        );
        assert forall|i: int| 0 <= i < ra.len() implies (#[trigger] ra[i]).1.len() <= u64::MAX by {
            assert(ra[i] == a[i + 1]);
        }
        assert forall|i: int| 0 <= i < rb.len() implies (#[trigger] rb[i]).1.len() <= u64::MAX by {
            assert(rb[i] == b[i + 1]);
        }
        different_artifacts_differ_in_bytes(ra, rb);
        assert(a =~= seq![a[0]] + ra);
        assert(b =~= seq![b[0]] + rb);
    }
}

/// Whether a file counts as a test executable: on Windows a regular file called `.exe`; elsewhere a regular file that someone
/// may execute, unless its extension says that it is something else.
pub proof fn only_executables_count(
    files: Seq<BuildFile>,
    extensions: Seq<Option<Seq<char>>>,
    windows: bool,
    n: int,
    path: Seq<char>,
)
    requires
        0 <= n <= files.len(),
        files.len() == extensions.len(),
    ensures
        executables_among(files, extensions, windows, n).contains(path) <==> exists|i: int|
            0 <= i < n && (#[trigger] files[i]).path@ == path && files[i].is_file && (if windows {
                extensions[i] == Some("exe"@)
            } else {
                files[i].mode & 0o111 != 0 && extensions[i] != Some("d"@) && extensions[i] != Some("rmeta"@) && extensions[i]
                    != Some("rlib"@) && extensions[i] != Some("o"@) && extensions[i] != Some("dylib"@) && extensions[i]
                    != Some("so"@)
            }),
    decreases n,
{
    if n > 0 {
        only_executables_count(files, extensions, windows, n - 1, path);
        let before = executables_among(files, extensions, windows, n - 1);
        let after = executables_among(files, extensions, windows, n);
        if looks_executable(files[n - 1], extensions[n - 1], windows) {
            assert(after[before.len() as int] == files[n - 1].path@);
            if before.contains(path) {
                let i = choose|i: int| 0 <= i < before.len() && before[i] == path;
                assert(after[i] == path);
            }
            if after.contains(path) {
                let i = choose|i: int| 0 <= i < after.len() && after[i] == path;
                if i < before.len() {
                    assert(before[i] == path);
                }
            }
        }
    }
}

/// Where cargo builds into: `debug` by default and for the profiles `dev` and `test`, `release` for the profiles `release` and
/// `bench`, and otherwise a directory of the name of the profile.
pub proof fn profiles_have_directories(name: Seq<char>)
    ensures
        profile_dir(None) == "debug"@,
        name == "dev"@ || name == "test"@ ==> profile_dir(Some(name)) == "debug"@,
        name == "release"@ || name == "bench"@ ==> profile_dir(Some(name)) == "release"@,
        name != "dev"@ && name != "test"@ && name != "release"@ && name != "bench"@ ==> profile_dir(Some(name)) == name,
{
    reveal_strlit("dev");
    reveal_strlit("test");
    reveal_strlit("release");
    reveal_strlit("bench");
    assert("dev"@.len() == 3 && "test"@.len() == 4 && "release"@.len() == 7 && "bench"@.len() == 5);
}

/// Each artifact is digested as its name, a byte that ends it, the length of its contents and its contents, one artifact behind
/// the other; and the second digest is made of the same bytes with another byte before them.
pub proof fn artifacts_are_digested_whole(artifacts: Seq<(Seq<char>, Seq<u8>)>, r: Option<Fingerprint>)
    requires
        fingerprinted(artifacts, r),
    ensures
        r is Some <==> artifacts.len() > 0,
        r matches Some(f) ==> f@.0 == digest(artifacts_bytes(artifacts, artifacts.len() as int)) && f@.1 == digest(
            seq![0x5au8] + artifacts_bytes(artifacts, artifacts.len() as int),
        ),
        artifacts.len() > 0 ==> artifacts_bytes(artifacts, artifacts.len() as int) == artifacts_bytes(
            artifacts,
            artifacts.len() - 1,
        ) + encode_utf8(artifacts.last().0) + seq![0xffu8] + eight_bytes(artifacts.last().1.len() as u64)
            + artifacts.last().1,
{
    if artifacts.len() > 0 {
        let n = artifacts.len() as int;
        assert(artifacts_bytes(artifacts, n) =~= artifacts_bytes(artifacts, n - 1) + encode_utf8(artifacts.last().0)
            + seq![0xffu8] + eight_bytes(artifacts.last().1.len() as u64) + artifacts.last().1);
    }
}

/// What looks like a test executable is decided by the same rule for a single file as among all files.
pub proof fn executables_are_told_apart_alike(
    file: BuildFile,
    extension: Option<&str>,
    on_unix: bool,
    on_windows: bool,
)
    requires
        call_ensures(is_test_executable, (file.is_file, file.mode, extension), on_unix),
        call_ensures(is_windows_test_executable, (file.is_file, extension), on_windows),
    ensures
        ({
            let known = match extension {
                Some(e) => Some(e@),
                None => None,
            };
            &&& on_unix == looks_executable(file, known, false)
            &&& on_windows == looks_executable(file, known, true)
        }),
        !file.is_file ==> !on_unix && !on_windows,
        extension is None ==> !on_windows && on_unix == (file.is_file && file.mode & 0o111 != 0),
{
}

} // verus!
