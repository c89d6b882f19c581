//! The isolated source material of one package evaluation and the rules that bound it.
use vstd::prelude::*;

use crate::error::EvaluatorError;
use crate::json::JsonValue;
use crate::metrics::{path_components, raw_components};
use crate::text::{chars_of as lit, chars_eq, lower, string_of, to_lower, trim, trim_chars, views};

verus! {

/// Defines inclusive resource bounds for one package collection operation.
#[derive(Clone, Copy, Debug)]
pub struct CorpusLimits {
    /// Maximum supported generated artifacts.
    pub max_artifacts: usize,
    /// Maximum files, directories, and symlinks visited during discovery.
    pub max_discovered_entries: usize,
    /// Maximum UTF-8 bytes in any brief, artifact, model, or metadata file.
    pub max_artifact_bytes: usize,
    /// Maximum combined UTF-8 bytes across all collected inputs.
    pub max_total_bytes: usize,
}

impl Default for CorpusLimits {
    /// Returns conservative defaults suitable for project documentation packages.
    fn default() -> (r: Self)
        ensures
            r.max_artifacts == 10_000,
            r.max_discovered_entries == 20_000,
            r.max_artifact_bytes == 2 * 1024 * 1024,
            r.max_total_bytes == 32 * 1024 * 1024,
    {
        CorpusLimits {
            max_artifacts: 10_000,
            max_discovered_entries: 20_000,
            max_artifact_bytes: 2 * 1024 * 1024,
            max_total_bytes: 32 * 1024 * 1024,
        }
    }
}

/// Stores one evaluator-owned copy of a submitted UTF-8 source artifact.
#[derive(Clone, Debug, PartialEq, Eq)]
pub struct Artifact {
    /// Stable package-relative path, or `ORIGINAL_BRIEF` for the brief.
    pub relative_path: String,
    /// Submitted UTF-8 content copied without modification.
    pub content: String,
    /// Stable FNV-1a content hash encoded as lowercase hexadecimal.
    pub content_hash: String,
}

/// Contains isolated source material collected for one package evaluation.
#[derive(Debug)]
pub struct Corpus {
    /// Stable identity supplied for this package.
    pub package_id: String,
    /// Original user brief retained separately as the fidelity authority.
    pub brief: Artifact,
    /// Supported generated artifacts in deterministic relative-path order.
    pub artifacts: Vec<Artifact>,
    /// Parsed optional project model.
    pub project_model: Option<JsonValue>,
    /// Parsed optional validation metadata.
    pub metadata: Option<JsonValue>,
    /// Unsupported files and symlinks skipped in deterministic path order.
    pub skipped_files: Vec<String>,
}

/// Mathematical content of an [`Artifact`].
pub struct ArtifactModel {
    pub relative_path: Seq<char>,
    pub content: Seq<char>,
    pub content_hash: Seq<char>,
}

impl View for Artifact {
    type V = ArtifactModel;

    open spec fn view(&self) -> ArtifactModel {
        ArtifactModel {
            relative_path: self.relative_path@,
            content: self.content@,
            content_hash: self.content_hash@,
        }
    }
}

/// The models of a sequence of artifacts.
pub open spec fn artifact_models(v: Seq<Artifact>) -> Seq<ArtifactModel> {
    v.map_values(|a: Artifact| a@)
}

/// The extension of a file name: the text after its last dot, unless that dot opens the name.
pub open spec fn extension(name: Seq<char>) -> Option<Seq<char>>
    decreases name.len(),
{
    if name.len() == 0 {
        None
    } else if name.last() == '.' {
        if name.len() == 1 {
            None
        } else {
            Some(seq![])
        }
    } else {
        match extension(name.drop_last()) {
            Some(e) => Some(e.push(name.last())),
            None => None,
        }
    }
}

/// Textual project-artifact extensions supported by the evaluator, ignoring ASCII case.
pub open spec fn supported_name(name: Seq<char>) -> bool {
    match extension(name) {
        Some(e) => {
            let l = lower(e);
            ||| l == "md"@
            ||| l == "markdown"@
            ||| l == "txt"@
            ||| l == "json"@
            ||| l == "toml"@
            ||| l == "yaml"@
            ||| l == "yml"@
        },
        None => false,
    }
}

/// Finds the extension of a file name.
fn name_extension(name: &[char]) -> (r: Option<Vec<char>>)
    ensures
        match r {
            Some(v) => extension(name@) == Some(v@),
            None => extension(name@) is None,
        },
{
    let mut ext: Option<Vec<char>> = None;
    let mut i: usize = 0;
    assert(name@.take(0) =~= Seq::<char>::empty());
    while i < name.len()
        invariant
            i <= name.len(),
            match ext {
                Some(v) => extension(name@.take(i as int)) == Some(v@),
                None => extension(name@.take(i as int)) is None,
            },
        decreases name.len() - i,
    {
        assert(name@.take(i + 1).drop_last() =~= name@.take(i as int));
        assert(name@.take(i + 1).last() == name@[i as int]);
        if name[i] == '.' {
            if i == 0 {
                ext = None;
            } else {
                let empty: Vec<char> = Vec::new();
                assert(empty@ =~= Seq::<char>::empty());
                ext = Some(empty);
            }
        } else {
            ext = match ext {
                Some(mut v) => {
                    v.push(name[i]);
                    Some(v)
                },
                None => None,
            };
        }
        i = i + 1;
    }
    assert(name@.take(name.len() as int) =~= name@);
    ext
}

/// Recognizes textual project-artifact file names supported by the evaluator.
pub fn is_supported(name: &str) -> (r: bool)
    ensures
        r == supported_name(name@),
{
    match name_extension(&lit(name)) {
        Some(e) => {
            let l = to_lower(&e);
            chars_eq(&l, &lit("md")) || chars_eq(&l, &lit("markdown")) || chars_eq(&l, &lit("txt"))
                || chars_eq(&l, &lit("json")) || chars_eq(&l, &lit("toml")) || chars_eq(
                &l,
                &lit("yaml"),
            ) || chars_eq(&l, &lit("yml"))
        },
        None => false,
    }
}

/// One step of the FNV-1a hash: mix in a byte, then multiply by the FNV prime modulo 2^64.
pub open spec fn fnv_step(h: u64, b: u8) -> u64 {
    (((h ^ (b as u64)) as nat * 0x100000001b3nat) % 0x1_0000_0000_0000_0000nat) as u64
}

/// The 64-bit FNV-1a hash of a byte sequence.
pub open spec fn fnv(bytes: Seq<u8>) -> u64
    decreases bytes.len(),
{
    if bytes.len() == 0 {
        0xcbf29ce484222325u64
    } else {
        fnv_step(fnv(bytes.drop_last()), bytes.last())
    }
}

/// The lowercase hexadecimal digit of a value below 16.
pub open spec fn hex_digit(d: u64) -> char {
    if d < 10 {
        ((48 + d) as u8) as char
    } else {
        ((87 + d) as u8) as char
    }
}

/// A 64-bit value as sixteen lowercase hexadecimal digits, most significant first.
pub open spec fn hex16(h: u64) -> Seq<char> {
    Seq::new(16, |i: int| hex_digit((h >> ((60 - 4 * i) as u64)) & 15))
}

/// Produces a stable dependency-free FNV-1a hash for evidence identity.
pub fn stable_hash(bytes: &[u8]) -> (r: String)
    ensures
        r@ == hex16(fnv(bytes@)),
{
    let mut hash: u64 = 0xcbf29ce484222325;
    let mut i: usize = 0;
    assert(bytes@.take(0) =~= Seq::<u8>::empty());
    while i < bytes.len()
        invariant
            i <= bytes.len(),
            hash == fnv(bytes@.take(i as int)),
        decreases bytes.len() - i,
    {
        assert(bytes@.take(i + 1).drop_last() =~= bytes@.take(i as int));
        assert(bytes@.take(i + 1).last() == bytes@[i as int]);
        hash = hash ^ (bytes[i] as u64);
        hash = hash.wrapping_mul(0x100000001b3);
        i = i + 1;
    }
    assert(bytes@.take(bytes.len() as int) =~= bytes@);
    let mut digits: Vec<char> = Vec::new();
    let mut k: u64 = 0;
    while k < 16
        invariant
            k <= 16,
            digits@.len() == k,
            forall|j: int| 0 <= j < k ==> digits@[j] == hex_digit((hash >> ((60 - 4 * j) as u64)) & 15),
        decreases 16 - k,
    {
        let sh: u64 = 60 - 4 * k;
        let d = (hash >> sh) & 15;
        assert(d < 16) by (bit_vector)
            requires
                d == (hash >> sh) & 15,
        ;
        assert(sh == (60 - 4 * k) as u64);
        let c = if d < 10 {
            ((48 + d) as u8) as char
        } else {
            ((87 + d) as u8) as char
        };
        digits.push(c);
        k = k + 1;
    }
    assert(digits@ =~= hex16(hash));
    string_of(&digits)
}

/// Applies the per-artifact and aggregate byte limits to `len` more bytes read from `path`.
pub fn admit_bytes(path: &String, len: usize, limits: &CorpusLimits, total: usize) -> (r: Result<
    usize,
    EvaluatorError,
>)
    ensures
        len > limits.max_artifact_bytes ==> r == Err::<usize, EvaluatorError>(
            EvaluatorError::ArtifactTooLarge { path: *path, limit: limits.max_artifact_bytes },
        ),
        len <= limits.max_artifact_bytes && total + len > limits.max_total_bytes ==> r == Err::<
            usize,
            EvaluatorError,
        >(EvaluatorError::PackageTooLarge { limit: limits.max_total_bytes }),
        len <= limits.max_artifact_bytes && total + len <= limits.max_total_bytes ==> r == Ok::<
            usize,
            EvaluatorError,
        >((total + len) as usize),
{
    if len > limits.max_artifact_bytes {
        return Err(EvaluatorError::ArtifactTooLarge { path: path.clone(), limit: limits.max_artifact_bytes });
    }
    if total > limits.max_total_bytes || len > limits.max_total_bytes - total {
        return Err(EvaluatorError::PackageTooLarge { limit: limits.max_total_bytes });
    }
    Ok(total + len)
}

/// Checks that a package identifier has text, and returns it trimmed.
pub fn package_identity(package_id: &str) -> (r: Result<String, EvaluatorError>)
    ensures
        trim(package_id@).len() == 0 ==> r is Err && r->Err_0 == EvaluatorError::EmptyPackageId,
        trim(package_id@).len() > 0 ==> r is Ok && r->Ok_0@ == trim(package_id@),
{
    let t = trim_chars(&lit(package_id));
    if t.len() == 0 {
        Err(EvaluatorError::EmptyPackageId)
    } else {
        Ok(string_of(&t))
    }
}

/// A path starts with a base, component by component; both are absolute or both relative.
pub open spec fn path_starts_with(p: Seq<char>, base: Seq<char>) -> bool {
    &&& (p.len() > 0 && p[0] == '/') == (base.len() > 0 && base[0] == '/')
    &&& raw_components(base).is_prefix_of(raw_components(p))
}

/// Requires the output directory to lie outside the read-only generated package.
pub fn check_output_isolation(output: &String, generated: &String) -> (r: Result<(), EvaluatorError>)
    ensures
        path_starts_with(output@, generated@) ==> r == Err::<(), EvaluatorError>(
            EvaluatorError::UnsafeOutputOverlap { output: *output, generated: *generated },
        ),
        !path_starts_with(output@, generated@) ==> r is Ok,
{
    let o = lit(output.as_str());
    let g = lit(generated.as_str());
    let o_root = o.len() > 0 && o[0] == '/';
    let g_root = g.len() > 0 && g[0] == '/';
    let oc = path_components(&o);
    let gc = path_components(&g);
    let ghost ov = views(oc@);
    let ghost gv = views(gc@);
    let mut prefix = o_root == g_root && gc.len() <= oc.len();
    let mut i: usize = 0;
    if prefix {
        while i < gc.len()
            invariant_except_break
                prefix,
            invariant
                i <= gc.len() <= oc.len(),
                ov == views(oc@),
                gv == views(gc@),
                ov == raw_components(output@),
                gv == raw_components(generated@),
                o_root == g_root,
                forall|k: int| 0 <= k < i ==> gv[k] == ov[k],
            ensures
                prefix ==> forall|k: int| 0 <= k < gv.len() ==> gv[k] == ov[k],
                !prefix ==> !path_starts_with(output@, generated@),
            decreases gc.len() - i,
        {
            if !chars_eq(&gc[i], &oc[i]) {
                prefix = false;
                assert(gv[i as int] != ov.subrange(0, gv.len() as int)[i as int]);
                assert(!(gv =~= ov.subrange(0, gv.len() as int)));
                break;
            }
            i = i + 1;
        }
    }
    if prefix {
        assert(gv =~= ov.take(gv.len() as int));
        Err(EvaluatorError::UnsafeOutputOverlap { output: output.clone(), generated: generated.clone() })
    } else {
        Ok(())
    }
}

/// What a discovered directory entry is.
#[derive(Clone, Copy, Debug, PartialEq, Eq, Structural)]
pub enum EntryKind {
    /// A symbolic link, never followed.
    Symlink,
    /// A directory, queued for discovery.
    Directory,
    /// A regular file.
    File,
    /// Anything else.
    Other,
}

/// A relative path extended by one entry name.
pub open spec fn join_name(dir: Seq<char>, name: Seq<char>) -> Seq<char> {
    if dir.len() == 0 {
        name
    } else {
        dir + "/"@ + name
    }
}

/// Extends a relative path by one entry name.
pub fn join_relative(dir: &String, name: &str) -> (r: String)
    ensures
        r@ == join_name(dir@, name@),
{
    let dv = lit(dir.as_str());
    if dv.len() == 0 {
        string_of(&lit(name))
    } else {
        let d = crate::text::concat(&dv, &lit("/"));
        string_of(&crate::text::concat(&d, &lit(name)))
    }
}

/// The bounded traversal state of package discovery; every path in it is package-relative.
pub struct Discovery {
    /// Directories still to read, the last one next; the root is the empty path.
    pub directories: Vec<String>,
    /// Supported regular files found so far.
    pub files: Vec<String>,
    /// Skipped symlinks and unsupported files.
    pub skipped: Vec<String>,
    /// Entries visited so far.
    pub discovered: usize,
}

impl Discovery {
    /// Starts a traversal at the package root.
    pub fn start() -> (r: Discovery)
        ensures
            strs_of(r.directories@) == seq![Seq::<char>::empty()],
            r.files@.len() == 0,
            r.skipped@.len() == 0,
            r.discovered == 0,
    {
        let mut directories: Vec<String> = Vec::new();
        directories.push(String::new());
        assert(strs_of(directories@) =~= seq![Seq::<char>::empty()]);
        Discovery { directories, files: Vec::new(), skipped: Vec::new(), discovered: 0 }
    }

    /// Takes the next directory to read, the most recently queued first.
    pub fn next_directory(&mut self) -> (r: Option<String>)
        ensures
            old(self).directories@.len() == 0 ==> r is None && final(self).directories@.len() == 0,
            old(self).directories@.len() > 0 ==> r == Some(old(self).directories@.last())
                && final(self).directories@ == old(self).directories@.drop_last(),
            final(self).files == old(self).files,
            final(self).skipped == old(self).skipped,
            final(self).discovered == old(self).discovered,
    {
        self.directories.pop()
    }

    /// Visits entry `name` of directory `dir`, in file-name order, and decides what discovery
    /// does with it: symlinks and unsupported files are skipped, directories queued, supported
    /// files kept, each within the entry and artifact limits.
    pub fn visit(
        &mut self,
        kind: EntryKind,
        dir: &String,
        name: &str,
        limits: &CorpusLimits,
    ) -> (r: Result<(), EvaluatorError>)
        ensures
            old(self).discovered >= limits.max_discovered_entries ==> r == Err::<(), EvaluatorError>(
                EvaluatorError::TooManyEntries { limit: limits.max_discovered_entries },
            ),
            old(self).discovered >= limits.max_discovered_entries ==> final(self).directories
                == old(self).directories && final(self).files == old(self).files
                && final(self).skipped == old(self).skipped && final(self).discovered
                == old(self).discovered,
            old(self).discovered < limits.max_discovered_entries ==> final(self).discovered
                == old(self).discovered + 1,
            old(self).discovered < limits.max_discovered_entries ==> strs_of(final(self).directories@)
                == (if kind == EntryKind::Directory {
                strs_of(old(self).directories@).push(join_name(dir@, name@))
            } else {
                strs_of(old(self).directories@)
            }),
            old(self).discovered < limits.max_discovered_entries ==> strs_of(final(self).files@) == (
            if kind == EntryKind::File && supported_name(name@) {
                strs_of(old(self).files@).push(join_name(dir@, name@))
            } else {
                strs_of(old(self).files@)
            }),
            old(self).discovered < limits.max_discovered_entries ==> strs_of(final(self).skipped@)
                == (if kind == EntryKind::Symlink || kind == EntryKind::Other || (kind
                == EntryKind::File && !supported_name(name@)) {
                strs_of(old(self).skipped@).push(join_name(dir@, name@))
            } else {
                strs_of(old(self).skipped@)
            }),
            old(self).discovered < limits.max_discovered_entries ==> r == (if kind == EntryKind::File
                && supported_name(name@) && final(self).files@.len() > limits.max_artifacts {
                Err::<(), EvaluatorError>(
                    EvaluatorError::TooManyArtifacts { limit: limits.max_artifacts },
                )
            } else {
                Ok::<(), EvaluatorError>(())
            }),
    {
        if self.discovered >= limits.max_discovered_entries {
            return Err(EvaluatorError::TooManyEntries { limit: limits.max_discovered_entries });
        }
        self.discovered = self.discovered + 1;
        let path = join_relative(dir, name);
        let ghost p = path@;
        match kind {
            EntryKind::Symlink => {
                let ghost before = strs_of(self.skipped@);
                self.skipped.push(path);
                assert(strs_of(self.skipped@) =~= before.push(p));
            },
            EntryKind::Directory => {
                let ghost before = strs_of(self.directories@);
                self.directories.push(path);
                assert(strs_of(self.directories@) =~= before.push(p));
            },
            EntryKind::File => {
                if is_supported(name) {
                    let ghost before = strs_of(self.files@);
                    self.files.push(path);
                    assert(strs_of(self.files@) =~= before.push(p));
                    if self.files.len() > limits.max_artifacts {
                        return Err(EvaluatorError::TooManyArtifacts { limit: limits.max_artifacts });
                    }
                } else {
                    let ghost before = strs_of(self.skipped@);
                    self.skipped.push(path);
                    assert(strs_of(self.skipped@) =~= before.push(p));
                }
            },
            EntryKind::Other => {
                let ghost before = strs_of(self.skipped@);
                self.skipped.push(path);
                assert(strs_of(self.skipped@) =~= before.push(p));
            },
        }
        Ok(())
    }
}

/// Three-way comparison of two relative paths, component by component: -1, 0 or 1. The
/// separator sorts before every other character.
pub open spec fn path_order(a: Seq<char>, b: Seq<char>) -> int
    decreases a.len(),
{
    if a.len() == 0 && b.len() == 0 {
        0
    } else if a.len() == 0 {
        -1
    } else if b.len() == 0 {
        1
    } else if a[0] == b[0] {
        path_order(a.drop_first(), b.drop_first())
    } else if a[0] == '/' {
        -1
    } else if b[0] == '/' {
        1
    } else if a[0] < b[0] {
        -1
    } else {
        1
    }
}

/// Path comparison is antisymmetric and exactly zero on equal paths.
pub proof fn lemma_path_order_antisym(a: Seq<char>, b: Seq<char>)
    ensures
        path_order(a, b) == -path_order(b, a),
        (path_order(a, b) == 0) == (a == b),
        -1 <= path_order(a, b) <= 1,
    decreases a.len(),
{
    if a.len() > 0 && b.len() > 0 && a[0] == b[0] {
        lemma_path_order_antisym(a.drop_first(), b.drop_first());
        if a.drop_first() == b.drop_first() {
            assert(a =~= seq![a[0]] + a.drop_first());
            assert(b =~= seq![b[0]] + b.drop_first());
        }
    }
    if a.len() == 0 && b.len() == 0 {
        assert(a =~= b);
    }
}

/// Path order is transitive.
pub proof fn lemma_path_order_trans(a: Seq<char>, b: Seq<char>, c: Seq<char>)
    requires
        path_order(a, b) <= 0,
        path_order(b, c) <= 0,
    ensures
        path_order(a, c) <= 0,
    decreases a.len(),
{
    if a.len() > 0 && b.len() > 0 && c.len() > 0 && a[0] == b[0] && b[0] == c[0] {
        lemma_path_order_trans(a.drop_first(), b.drop_first(), c.drop_first());
    }
}

/// Every earlier path sorts no later than every later one.
pub open spec fn paths_sorted(s: Seq<Seq<char>>) -> bool {
    forall|i: int, j: int| 0 <= i < j < s.len() ==> path_order(#[trigger] s[i], #[trigger] s[j]) <= 0
}

/// Compares two relative paths component by component.
pub fn compare_paths(a: &[char], b: &[char]) -> (r: i8)
    ensures
        r as int == path_order(a@, b@),
{
    let mut i: usize = 0;
    assert(a@.skip(0) =~= a@);
    assert(b@.skip(0) =~= b@);
    while i < a.len() && i < b.len() && a[i] == b[i]
        invariant
            i <= a.len(),
            i <= b.len(),
            path_order(a@, b@) == path_order(a@.skip(i as int), b@.skip(i as int)),
        decreases a.len() - i,
    {
        assert(a@.skip(i as int).drop_first() =~= a@.skip(i + 1));
        assert(b@.skip(i as int).drop_first() =~= b@.skip(i + 1));
        i = i + 1;
    }
    let ghost sa = a@.skip(i as int);
    let ghost sb = b@.skip(i as int);
    if i == a.len() && i == b.len() {
        0
    } else if i == a.len() {
        -1
    } else if i == b.len() {
        1
    } else {
        assert(sa[0] == a@[i as int]);
        assert(sb[0] == b@[i as int]);
        let x = a[i];
        let y = b[i];
        if x == '/' {
            -1
        } else if y == '/' {
            1
        } else if x < y {
            -1
        } else {
            1
        }
    }
}

/// Sorts relative paths component by component, keeping equal paths in their given order.
pub fn sort_paths(v: &Vec<String>) -> (r: Vec<String>)
    ensures
        paths_sorted(strs_of(r@)),
        strs_of(r@).to_multiset() == strs_of(v@).to_multiset(),
{
    let ghost vs = strs_of(v@);
    let mut r: Vec<String> = Vec::new();
    let mut i: usize = 0;
    assert(strs_of(r@) =~= vs.take(0));
    while i < v.len()
        invariant
            i <= v.len(),
            vs == strs_of(v@),
            paths_sorted(strs_of(r@)),
            strs_of(r@).to_multiset() == vs.take(i as int).to_multiset(),
        decreases v.len() - i,
    {
        let x = lit(v[i].as_str());
        let ghost rs = strs_of(r@);
        let mut p: usize = 0;
        while p < r.len() && compare_paths(&x, &lit(r[p].as_str())) >= 0
            invariant
                p <= r.len(),
                rs == strs_of(r@),
                forall|j: int| 0 <= j < p ==> path_order(x@, #[trigger] rs[j]) >= 0,
            decreases r.len() - p,
        {
            p = p + 1;
        }
        let s = v[i].clone();
        r.insert(p, s);
        let ghost r2 = strs_of(r@);
        assert(r2 =~= rs.insert(p as int, x@));
        assert forall|a: int, b: int| 0 <= a < b < r2.len() implies path_order(
            #[trigger] r2[a],
            #[trigger] r2[b],
        ) <= 0 by {
            if b < p {
            } else if b == p {
                lemma_path_order_antisym(x@, rs[a]);
            } else if a < p {
                assert(r2[b] == rs[b - 1]);
                lemma_path_order_antisym(x@, rs[a]);
                if p < rs.len() {
                    assert(path_order(rs[a], x@) <= 0);
                    assert(path_order(x@, rs[p as int]) < 0);
                }
                assert(path_order(rs[a], rs[b - 1]) <= 0);
            } else if a == p {
                assert(r2[b] == rs[b - 1]);
                if b - 1 > p {
                    lemma_path_order_trans(x@, rs[p as int], rs[b - 1]);
                }
            } else {
                assert(r2[a] == rs[a - 1]);
                assert(r2[b] == rs[b - 1]);
            }
        }
        proof {
            assert(r2.remove(p as int) =~= rs);
            r2.to_multiset_ensures();
            assert(vs.take(i + 1) =~= vs.take(i as int).push(x@));
            vs.take(i as int).to_multiset_ensures();
            assert(r2.to_multiset() =~= rs.to_multiset().insert(x@)) by {
                assert(r2[p as int] == x@);
                assert(r2.contains(x@));
                assert(r2.to_multiset().count(x@) > 0);
            }
        }
        i = i + 1;
    }
    assert(vs.take(v.len() as int) =~= vs);
    r
}

/// Makes the evaluator-owned copy of one artifact, with its content hash.
pub fn make_artifact(relative_path: String, content: String) -> (r: Artifact)
    ensures
        r.relative_path == relative_path,
        r.content == content,
        r.content_hash@ == hex16(fnv(vstd::utf8::encode_utf8(content@))),
{
    let content_hash = stable_hash(content.as_str().as_bytes());
    Artifact { relative_path, content, content_hash }
}

/// The characters of a sequence of strings.
pub open spec fn strs_of(v: Seq<String>) -> Seq<Seq<char>> {
    v.map_values(|s: String| s@)
}

} // verus!
