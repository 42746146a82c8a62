use crate::error::{error_detail, policy, security, SandboxError};
use crate::paths::{components, is_within, path_components, same_components, within};
use crate::text::{
    chars_equal, chars_of, contains_char, hex_lower, hex_lower_chars, lex_le, lex_le_chars,
    split_chars, split_on, string_from_chars, utf8_len, utf8_len_upto,
};
use sha2::Digest;
use vstd::prelude::*;

verus! {

/// The most bytes an artifact direction may total.
pub const MAX_ARTIFACT_BYTES: u64 = 1073741824;

/// The most files an artifact direction may hold.
pub const MAX_ARTIFACT_FILES: u64 = 1024;

/// The most directory entries an artifact tree may hold.
pub const MAX_ARTIFACT_ENTRIES: u64 = 4096;

/// The deepest an artifact directory may be nested.
pub const MAX_ARTIFACT_DEPTH: usize = 32;

/// Per-job bounds on staged input and produced output.
#[derive(Debug, Clone, Copy, PartialEq, Eq, Structural)]
pub struct ArtifactLimits {
    pub input_files: u64,
    pub input_bytes: u64,
    pub input_file_bytes: u64,
    pub output_files: u64,
    pub output_bytes: u64,
    pub output_file_bytes: u64,
}

/// A job's workspace: its directory, its limits and the outputs it declares.
#[derive(Debug, Clone)]
pub struct WorkspaceSpec {
    pub path: String,
    pub limits: ArtifactLimits,
    pub outputs: Vec<DeclaredOutput>,
}

/// One output file that a job may write.
#[derive(Debug, Clone)]
pub struct DeclaredOutput {
    pub path: String,
    pub max_bytes: Option<u64>,
    pub required: bool,
}

/// One produced file as the manifest reports it.
#[derive(Debug, Clone)]
pub struct ArtifactManifestEntry {
    pub path: String,
    pub size: u64,
    pub sha256: String,
}

/// A declared output is required unless it says otherwise.
pub fn required_by_default() -> (b: bool)
    ensures
        b,
{
    true
}

/// The limits stay inside the immutable native bounds: every count and size
/// is positive, the counts and totals are within the native maximum, and no
/// per-file bound exceeds its total.
pub open spec fn limits_acceptable(l: ArtifactLimits) -> bool {
    &&& 0 < l.input_files <= MAX_ARTIFACT_FILES
    &&& 0 < l.output_files <= MAX_ARTIFACT_FILES
    &&& 0 < l.input_bytes <= MAX_ARTIFACT_BYTES
    &&& 0 < l.output_bytes <= MAX_ARTIFACT_BYTES
    &&& 0 < l.input_file_bytes <= l.input_bytes
    &&& 0 < l.output_file_bytes <= l.output_bytes
}

pub fn validate_limits(limits: ArtifactLimits) -> (out: Result<(), SandboxError>)
    ensures
        match out {
            Ok(()) => limits_acceptable(limits),
            Err(e) => !limits_acceptable(limits) && e is PolicyViolation && error_detail(&e)
                == "artifact limits exceed immutable native bounds"@,
        },
{
    if limits.input_files == 0 || limits.output_files == 0 || limits.input_files
        > MAX_ARTIFACT_FILES || limits.output_files > MAX_ARTIFACT_FILES || limits.input_bytes
        == 0 || limits.input_file_bytes == 0 || limits.output_bytes == 0
        || limits.output_file_bytes == 0 || limits.input_bytes > MAX_ARTIFACT_BYTES
        || limits.input_file_bytes > limits.input_bytes || limits.output_bytes
        > MAX_ARTIFACT_BYTES || limits.output_file_bytes > limits.output_bytes {
        return Err(policy("artifact limits exceed immutable native bounds"));
    }
    Ok(())
}

/// What a directory walk learned about one entry of an artifact tree.
#[derive(Debug, Clone, Copy)]
pub struct TreeEntry {
    pub is_symlink: bool,
    pub is_dir: bool,
    pub is_file: bool,
    pub nlink: u64,
    pub size: u64,
    pub blocks: u64,
    pub block_size: u64,
    /// Components below the tree's root; read for directories only.
    pub depth: usize,
}

/// What the walk does with an admitted entry.
#[derive(Debug, Clone, Copy, PartialEq, Eq, Structural)]
pub enum EntryVerdict {
    /// A directory to walk into.
    Descend,
    /// A regular file that counts against the budget.
    Count,
}

pub open spec fn sat_mul(a: u64, b: u64) -> u64 {
    if a * b <= u64::MAX {
        (a * b) as u64
    } else {
        u64::MAX
    }
}

pub open spec fn sat_add(a: u64, b: u64) -> u64 {
    if a + b <= u64::MAX {
        (a + b) as u64
    } else {
        u64::MAX
    }
}

/// How many entries a tree with `max_files` files may hold: four per file,
/// between 64 and the native maximum.
pub open spec fn entry_budget(max_files: u64) -> u64 {
    let four = sat_mul(max_files, 4);
    if four < 64 {
        64
    } else if four > MAX_ARTIFACT_ENTRIES {
        MAX_ARTIFACT_ENTRIES
    } else {
        four
    }
}

fn saturating_mul(a: u64, b: u64) -> (p: u64)
    ensures
        p == sat_mul(a, b),
{
    match a.checked_mul(b) {
        Some(p) => p,
        None => u64::MAX,
    }
}

pub open spec fn sat_sub_u64(a: u64, b: u64) -> u64 {
    if a >= b {
        (a - b) as u64
    } else {
        0
    }
}

pub open spec fn sum_sizes(sizes: Seq<u64>) -> nat
    decreases sizes.len(),
{
    if sizes.len() == 0 {
        0
    } else {
        (sum_sizes(sizes.drop_last()) + sizes.last()) as nat
    }
}

/// The running account of one walk over an artifact tree.
pub struct TreeBudget {
    max_files: u64,
    max_bytes: u64,
    max_file_bytes: u64,
    require_empty: bool,
    max_entries: u64,
    entries: u64,
    files: u64,
    total: u64,
    allocated: u64,
    allocation_overhead: u64,
    sizes: Ghost<Seq<u64>>,
}

impl TreeBudget {
    /// Every file counted so far fits the tree's limits.
    pub closed spec fn within_limits(&self) -> bool {
        &&& self.entries <= self.max_entries
        &&& self.max_entries == entry_budget(self.max_files)
        &&& self.files == self.sizes@.len()
        &&& self.files <= self.max_files
        &&& self.total == sum_sizes(self.sizes@)
        &&& self.total <= self.max_bytes
        &&& forall|i: int|
            0 <= i < self.sizes@.len() ==> #[trigger] self.sizes@[i] <= self.max_file_bytes
        &&& self.require_empty ==> forall|i: int|
            0 <= i < self.sizes@.len() ==> #[trigger] self.sizes@[i] == 0
        &&& self.allocated <= sat_add(self.max_bytes, self.allocation_overhead)
    }

    /// The sizes of the files counted so far, in walk order.
    pub closed spec fn counted(&self) -> Seq<u64> {
        self.sizes@
    }

    /// What examining `entry` decides: walk into a directory that is not
    /// nested too deeply, count a single-link regular file while the counts
    /// and sums stay within the limits, or refuse with the message of the
    /// first check that fails.
    pub closed spec fn decision(&self, entry: TreeEntry) -> Result<EntryVerdict, Seq<char>> {
        let overhead = if sat_mul(self.max_files, sat_sub_u64(entry.block_size, 1))
            > self.allocation_overhead {
            sat_mul(self.max_files, sat_sub_u64(entry.block_size, 1))
        } else {
            self.allocation_overhead
        };
        let total = self.total + entry.size;
        let allocated = self.allocated + sat_mul(entry.blocks, 512);
        if entry.is_symlink {
            Err("artifact trees may not contain symbolic links"@)
        } else if entry.is_dir {
            if entry.depth > MAX_ARTIFACT_DEPTH {
                Err("artifact tree is nested too deeply"@)
            } else {
                Ok(EntryVerdict::Descend)
            }
        } else if !entry.is_file || entry.nlink != 1 {
            Err("artifact trees may contain only regular unlinked files"@)
        } else if self.require_empty && entry.size != 0 {
            Err("declared artifact outputs must start empty"@)
        } else if total > u64::MAX {
            Err("artifact byte count overflowed"@)
        } else if allocated > u64::MAX {
            Err("artifact allocation count overflowed"@)
        } else if self.files >= self.max_files || total > self.max_bytes || allocated > sat_add(
            self.max_bytes,
            overhead,
        ) || entry.size > self.max_file_bytes {
            Err("artifact tree exceeds its configured limits"@)
        } else {
            Ok(EntryVerdict::Count)
        }
    }

    pub closed spec fn entries_seen(&self) -> u64 {
        self.entries
    }

    /// The bytes that the counted files occupy on disk, as their block
    /// counts report them.
    pub closed spec fn allocated_bytes(&self) -> u64 {
        self.allocated
    }

    pub closed spec fn bounds(&self) -> (u64, u64, u64, bool) {
        (self.max_files, self.max_bytes, self.max_file_bytes, self.require_empty)
    }

    pub fn new(max_files: u64, max_bytes: u64, max_file_bytes: u64, require_empty: bool) -> (b:
        Self)
        ensures
            b.within_limits(),
            b.counted() == Seq::<u64>::empty(),
            b.entries_seen() == 0,
            b.bounds() == (max_files, max_bytes, max_file_bytes, require_empty),
    {
        let four = saturating_mul(max_files, 4);
        let max_entries = if four < 64 {
            64
        } else if four > MAX_ARTIFACT_ENTRIES {
            MAX_ARTIFACT_ENTRIES
        } else {
            four
        };
        TreeBudget {
            max_files,
            max_bytes,
            max_file_bytes,
            require_empty,
            max_entries,
            entries: 0,
            files: 0,
            total: 0,
            allocated: 0,
            allocation_overhead: 0,
            sizes: Ghost(Seq::empty()),
        }
    }

    /// Counts one more directory entry, before it is examined.
    pub fn enter(&mut self) -> (out: Result<(), SandboxError>)
        requires
            old(self).within_limits(),
        ensures
            final(self).within_limits(),
            final(self).counted() == old(self).counted(),
            final(self).bounds() == old(self).bounds(),
            match out {
                Ok(()) => final(self).entries_seen() == old(self).entries_seen() + 1,
                Err(e) => old(self).entries_seen() + 1 > entry_budget(old(self).bounds().0)
                    && e is PolicyViolation && error_detail(&e)
                    == "artifact tree contains too many entries"@,
            },
    {
        if self.entries >= self.max_entries {
            return Err(policy("artifact tree contains too many entries"));
        }
        self.entries = self.entries + 1;
        Ok(())
    }

    /// Examines one entry: directories are walked into when shallow enough,
    /// single-link regular files are counted against the limits, anything
    /// else is refused.
    pub fn examine(&mut self, entry: TreeEntry) -> (out: Result<EntryVerdict, SandboxError>)
        requires
            old(self).within_limits(),
        ensures
            final(self).within_limits(),
            final(self).bounds() == old(self).bounds(),
            final(self).entries_seen() == old(self).entries_seen(),
            match out {
                Ok(EntryVerdict::Descend) => entry.is_dir && !entry.is_symlink && entry.depth
                    <= MAX_ARTIFACT_DEPTH && final(self).counted() == old(self).counted(),
                Ok(EntryVerdict::Count) => !entry.is_symlink && !entry.is_dir && entry.is_file
                    && entry.nlink == 1 && final(self).counted() == old(self).counted().push(
                    entry.size,
                ),
                Err(e) => e is PolicyViolation && final(self).counted() == old(self).counted(),
            },
            match (out, old(self).decision(entry)) {
                (Ok(v), Ok(w)) => v == w,
                (Err(e), Err(m)) => error_detail(&e) == m,
                _ => false,
            },
    {
        if entry.is_symlink {
            return Err(policy("artifact trees may not contain symbolic links"));
        }
        if entry.is_dir {
            if entry.depth > MAX_ARTIFACT_DEPTH {
                return Err(policy("artifact tree is nested too deeply"));
            }
            return Ok(EntryVerdict::Descend);
        }
        if !entry.is_file || entry.nlink != 1 {
            return Err(policy("artifact trees may contain only regular unlinked files"));
        }
        if self.require_empty && entry.size != 0 {
            return Err(policy("declared artifact outputs must start empty"));
        }
        let total = match self.total.checked_add(entry.size) {
            Some(t) => t,
            None => return Err(policy("artifact byte count overflowed")),
        };
        let allocated = match self.allocated.checked_add(saturating_mul(entry.blocks, 512)) {
            Some(a) => a,
            None => return Err(policy("artifact allocation count overflowed")),
        };
        let slack = saturating_mul(self.max_files, entry.block_size.saturating_sub(1));
        let overhead = if slack > self.allocation_overhead {
            slack
        } else {
            self.allocation_overhead
        };
        let limit = self.max_bytes.saturating_add(overhead);
        if self.files >= self.max_files || total > self.max_bytes || allocated > limit
            || entry.size > self.max_file_bytes {
            return Err(policy("artifact tree exceeds its configured limits"));
        }
        self.total = total;
        self.allocated = allocated;
        self.allocation_overhead = overhead;
        self.files = self.files + 1;
        self.sizes = Ghost(self.sizes@.push(entry.size));
        assert(self.sizes@.drop_last() =~= old(self).sizes@);
        Ok(EntryVerdict::Count)
    }
}

/// A tree may hold four entries per allowed file, but never fewer than 64
/// nor more than the native maximum of 4096.
pub proof fn lemma_entry_budget(max_files: u64)
    ensures
        64 <= entry_budget(max_files) <= MAX_ARTIFACT_ENTRIES,
        max_files * 4 <= MAX_ARTIFACT_ENTRIES ==> entry_budget(max_files) >= max_files * 4,
        max_files * 4 >= 64 ==> entry_budget(max_files) <= max_files * 4,
        64 <= max_files * 4 <= MAX_ARTIFACT_ENTRIES ==> entry_budget(max_files) == max_files * 4,
        max_files * 4 > MAX_ARTIFACT_ENTRIES ==> entry_budget(max_files) == MAX_ARTIFACT_ENTRIES,
{
    assert(max_files * 4 <= u64::MAX ==> sat_mul(max_files, 4) == max_files * 4);
}

/// A single-link regular file is counted whenever it fits: the file count is
/// below the maximum, the byte total and the file's own size stay within
/// their bounds, and the allocated bytes stay within the total bound plus
/// one block's slack for each allowed file. So the slack grows with the
/// number of files a tree may hold.
pub proof fn lemma_examine_counts_a_fitting_file(budget: &TreeBudget, entry: TreeEntry)
    requires
        budget.within_limits(),
        !entry.is_symlink,
        !entry.is_dir,
        entry.is_file,
        entry.nlink == 1,
        budget.bounds().3 ==> entry.size == 0,
        budget.counted().len() < budget.bounds().0,
        sum_sizes(budget.counted()) + entry.size <= budget.bounds().1,
        entry.size <= budget.bounds().2,
        entry.block_size >= 1,
        budget.allocated_bytes() + entry.blocks * 512 <= u64::MAX,
        budget.allocated_bytes() + entry.blocks * 512 <= budget.bounds().1 + budget.bounds().0 * (
        entry.block_size - 1),
    ensures
        budget.decision(entry) == Ok::<EntryVerdict, Seq<char>>(EntryVerdict::Count),
{
    let slack = budget.max_files * (entry.block_size - 1);
    assert(entry.blocks * 512 <= u64::MAX ==> sat_mul(entry.blocks, 512) == entry.blocks * 512);
    assert(entry.blocks * 512 >= 0) by (nonlinear_arith)
        requires
            entry.blocks >= 0,
    ;
    assert(slack >= 0) by (nonlinear_arith)
        requires
            budget.max_files >= 0,
            entry.block_size >= 1,
            slack == budget.max_files * (entry.block_size - 1),
    ;
    assert(sat_sub_u64(entry.block_size, 1) == entry.block_size - 1);
    assert(slack <= u64::MAX ==> sat_mul(budget.max_files, sat_sub_u64(entry.block_size, 1))
        == slack);
}

/// A walk that the budget let through respects the tree's limits: no more
/// files than allowed, no file above the per-file bound, and a total within
/// the total bound.
pub proof fn lemma_counted_files_within_limits(budget: &TreeBudget)
    requires
        budget.within_limits(),
    ensures
        budget.counted().len() <= budget.bounds().0,
        sum_sizes(budget.counted()) <= budget.bounds().1,
        forall|i: int|
            0 <= i < budget.counted().len() ==> #[trigger] budget.counted()[i] <= budget.bounds().2,
        budget.bounds().3 ==> forall|i: int|
            0 <= i < budget.counted().len() ==> #[trigger] budget.counted()[i] == 0,
        budget.entries_seen() <= entry_budget(budget.bounds().0),
        entry_budget(budget.bounds().0) <= MAX_ARTIFACT_ENTRIES,
{
}


/// The longest declared output path, in bytes.
pub const MAX_OUTPUT_PATH_BYTES: u64 = 1024;

/// A relative path made of plain names only, as an output declaration must
/// be: not empty, at most 1024 bytes, no backslash, not absolute, not
/// starting with a `.` component and with no `..` component.
pub open spec fn declared_path_ok(path: Seq<char>) -> bool {
    &&& path.len() > 0
    &&& utf8_len(path) <= MAX_OUTPUT_PATH_BYTES
    &&& !path.contains('\\')
    &&& path[0] != '/'
    &&& split_on(path, '/')[0] != "."@
    &&& forall|i: int|
        0 <= i < split_on(path, '/').len() ==> #[trigger] split_on(path, '/')[i] != ".."@
}

fn declared_path_valid(path: &str) -> (b: bool)
    ensures
        b == declared_path_ok(path@),
{
    let chars = chars_of(path);
    if chars.len() == 0 || utf8_len_upto(path, MAX_OUTPUT_PATH_BYTES).is_none() || contains_char(
        &chars,
        '\\',
    ) || chars[0] == '/' {
        return false;
    }
    let segments = split_chars(&chars, '/');
    let ghost views = segments@.map_values(|w: Vec<char>| w@);
    assert(views.len() == segments.len());
    assert(views[0] == segments@[0]@);
    let dot = chars_of(".");
    if chars_equal(&segments[0], &dot) {
        return false;
    }
    let dots = chars_of("..");
    let mut i: usize = 0;
    while i < segments.len()
        invariant
            views == split_on(chars@, '/'),
            views == segments@.map_values(|w: Vec<char>| w@),
            chars@ == path@,
            dots@ == ".."@,
            i <= segments.len(),
            forall|j: int| 0 <= j < i ==> #[trigger] views[j] != ".."@,
        decreases segments.len() - i,
    {
        assert(views[i as int] == segments@[i as int]@);
        if chars_equal(&segments[i], &dots) {
            return false;
        }
        i += 1;
    }
    true
}

/// What the file system reports of a declared output file.
#[derive(Debug, Clone, Copy, PartialEq, Eq, Structural)]
pub struct OutputFile {
    pub is_file: bool,
    pub is_symlink: bool,
    pub nlink: u64,
    pub size: u64,
}

/// A declared output is safe on disk: a regular file, not a link, with one
/// name, empty, and resolving to a path inside the output directory.
pub open spec fn output_safe_on_disk(file: OutputFile, resolved: Seq<char>, root: Seq<char>) -> bool {
    &&& file.is_file
    &&& !file.is_symlink
    &&& file.nlink == 1
    &&& file.size == 0
    &&& within(resolved, root)
}

/// The check of a job's declared outputs against its limits, one
/// declaration at a time.
pub struct OutputPlan {
    limits: ArtifactLimits,
    uniform_max: Option<u64>,
    declared_bytes: u64,
    checked: u64,
    accepted: Vec<Vec<Vec<char>>>,
}

/// Declarations so far all share one maximum, and that maximum times their
/// number fits the output budget.
pub open spec fn budget_holds(
    limits: ArtifactLimits,
    uniform_max: Option<u64>,
    declared_bytes: u64,
    checked: u64,
) -> bool {
    match uniform_max {
        None => checked == 0 && declared_bytes == 0,
        Some(m) => {
            &&& checked > 0
            &&& 0 < m <= limits.output_file_bytes
            &&& declared_bytes == m * checked
            &&& declared_bytes <= limits.output_bytes
        },
    }
}

impl OutputPlan {
    pub closed spec fn consistent(&self) -> bool {
        budget_holds(self.limits, self.uniform_max, self.declared_bytes, self.checked)
    }

    pub closed spec fn limits(&self) -> ArtifactLimits {
        self.limits
    }

    /// The hard maximum all declarations share, once one was checked.
    pub closed spec fn uniform_max(&self) -> Option<u64> {
        self.uniform_max
    }

    /// The number of declarations checked so far.
    pub closed spec fn checked(&self) -> u64 {
        self.checked
    }

    /// The components of the outputs accepted so far.
    pub closed spec fn accepted(&self) -> Seq<Seq<Seq<char>>> {
        self.accepted@.map_values(|p: Vec<Vec<char>>| p@.map_values(|w: Vec<char>| w@))
    }

    /// Starts the check of `declared` outputs; refuses more than the output
    /// file limit.
    pub fn new(declared: usize, limits: ArtifactLimits) -> (out: Result<Self, SandboxError>)
        ensures
            match out {
                Ok(plan) => declared as u64 <= limits.output_files && plan.consistent()
                    && plan.limits() == limits && plan.checked() == 0 && plan.uniform_max() is None
                    && plan.accepted().len() == 0,
                Err(e) => declared as u64 > limits.output_files && e is PolicyViolation
                    && error_detail(&e) == "declared artifact output count is invalid"@,
            },
    {
        if declared as u64 > limits.output_files {
            return Err(policy("declared artifact output count is invalid"));
        }
        let plan = OutputPlan {
            limits,
            uniform_max: None,
            declared_bytes: 0,
            checked: 0,
            accepted: Vec::new(),
        };
        assert(plan.accepted() =~= Seq::<Seq<Seq<char>>>::empty());
        Ok(plan)
    }

    /// Checks one declaration's path and size; gives its hard maximum.
    pub fn check(&mut self, item: &DeclaredOutput) -> (out: Result<u64, SandboxError>)
        requires
            old(self).consistent(),
        ensures
            final(self).consistent(),
            final(self).limits() == old(self).limits(),
            final(self).accepted() == old(self).accepted(),
            out is Err ==> final(self).uniform_max() == old(self).uniform_max(),
            out is Err ==> final(self).checked() == old(self).checked(),
            out is Ok <==> declaration_accepted(
                old(self).limits(),
                old(self).uniform_max(),
                old(self).checked(),
                item,
            ),
            match out {
                Ok(max) => {
                    &&& declared_path_ok(item.path@)
                    &&& max == or_default(item.max_bytes, old(self).limits().output_file_bytes)
                    &&& final(self).uniform_max() == Some(max)
                    &&& final(self).checked() == old(self).checked() + 1
                    &&& (old(self).uniform_max() is Some ==> old(self).uniform_max() == Some(
                        max,
                    ))
                },
                Err(e) => e is PolicyViolation && error_detail(&e) == declaration_refusal(
                    old(self).limits(),
                    old(self).uniform_max(),
                    old(self).checked(),
                    item,
                ),
            },
    {
        if !declared_path_valid(item.path.as_str()) {
            return Err(policy("declared artifact output path is invalid"));
        }
        let max_bytes = match item.max_bytes {
            Some(m) => m,
            None => self.limits.output_file_bytes,
        };
        match self.uniform_max {
            Some(expected) => {
                if expected != max_bytes {
                    return Err(policy("declared outputs must use one uniform hard maximum"));
                }
            },
            None => {},
        }
        let declared_bytes = match self.declared_bytes.checked_add(max_bytes) {
            Some(total) => total,
            None => return Err(policy("artifact output byte count overflowed")),
        };
        if max_bytes == 0 || max_bytes > self.limits.output_file_bytes || declared_bytes
            > self.limits.output_bytes {
            return Err(policy("declared outputs exceed their limits"));
        }
        proof {
            assert(declared_bytes == max_bytes * (self.checked + 1)) by (nonlinear_arith)
                requires
                    declared_bytes == self.declared_bytes + max_bytes,
                    self.uniform_max is None ==> self.checked == 0 && self.declared_bytes == 0,
                    self.uniform_max is Some ==> self.uniform_max->0 == max_bytes
                        && self.declared_bytes == max_bytes * self.checked,
            ;
        }
        assert(self.checked + 1 <= declared_bytes) by (nonlinear_arith)
            requires
                declared_bytes == max_bytes * (self.checked + 1),
                max_bytes >= 1,
        ;
        self.uniform_max = Some(max_bytes);
        self.declared_bytes = declared_bytes;
        self.checked = self.checked + 1;
        Ok(max_bytes)
    }

    /// Records a checked declaration whose file is safe on disk: a fresh,
    /// empty, single-link regular file whose resolved path lies inside the
    /// output directory `root`. Refuses it when it is not, or when it names
    /// an output already accepted.
    pub fn accept(&mut self, path: &str, file: OutputFile, resolved: &str, root: &str) -> (out:
        Result<(), SandboxError>)
        requires
            old(self).consistent(),
        ensures
            ({
                let safe_on_disk = output_safe_on_disk(file, resolved@, root@);
                match out {
                    Ok(()) => safe_on_disk && !old(self).accepted().contains(components(path@))
                        && final(self).accepted() == old(self).accepted().push(components(path@)),
                    Err(e) => (!safe_on_disk || old(self).accepted().contains(components(path@)))
                        && e is PolicyViolation && error_detail(&e)
                        == "declared artifact output is unsafe"@ && final(self).accepted() == old(
                        self,
                    ).accepted(),
                }
            }),
            final(self).consistent(),
            final(self).limits() == old(self).limits(),
            final(self).checked() == old(self).checked(),
            final(self).uniform_max() == old(self).uniform_max(),
    {
        let safe_on_disk = file.is_file && !file.is_symlink && file.nlink == 1 && file.size == 0
            && is_within(resolved, root);
        let names = path_components(path);
        let ghost names_view = names@.map_values(|w: Vec<char>| w@);
        let ghost acc = self.accepted();
        let mut duplicate = false;
        let mut i: usize = 0;
        while i < self.accepted.len()
            invariant
                acc == self.accepted@.map_values(|p: Vec<Vec<char>>| p@.map_values(|w: Vec<char>| w@)),
                names_view == names@.map_values(|w: Vec<char>| w@),
                i <= self.accepted.len(),
                duplicate == exists|j: int| 0 <= j < i && acc[j] == names_view,
            decreases self.accepted.len() - i,
        {
            assert(acc[i as int] == self.accepted@[i as int]@.map_values(|w: Vec<char>| w@));
            if same_components(&self.accepted[i], &names) {
                duplicate = true;
            }
            i += 1;
        }
        proof {
            if duplicate {
                let j = choose|j: int| 0 <= j < acc.len() && acc[j] == names_view;
                assert(acc.contains(names_view));
            } else {
                assert(!acc.contains(names_view));
            }
        }
        if !safe_on_disk || duplicate {
            return Err(policy("declared artifact output is unsafe"));
        }
        self.accepted.push(names);
        assert(self.accepted() =~= acc.push(names_view));
        Ok(())
    }

    /// The output tree, walked after the declarations, must hold exactly
    /// the accepted outputs: any other file is undeclared.
    pub fn check_tree(&self, files_found: usize) -> (out: Result<(), SandboxError>)
        ensures
            match out {
                Ok(()) => files_found == self.accepted().len(),
                Err(e) => files_found != self.accepted().len() && e is PolicyViolation
                    && error_detail(&e) == "artifact output tree contains undeclared files"@,
            },
    {
        if files_found != self.accepted.len() {
            return Err(policy("artifact output tree contains undeclared files"));
        }
        Ok(())
    }
}

/// The declared outputs share one hard maximum, within the per-file bound,
/// and that maximum times their number fits the output total: a per-file
/// size limit of that maximum bounds all output together.
pub proof fn lemma_declared_outputs_fit_budget(plan: &OutputPlan)
    requires
        plan.consistent(),
    ensures
        match plan.uniform_max() {
            None => plan.checked() == 0,
            Some(m) => 0 < m <= plan.limits().output_file_bytes && m * plan.checked()
                <= plan.limits().output_bytes,
        },
{
}

pub open spec fn or_default(value: Option<u64>, default: u64) -> u64 {
    match value {
        Some(v) => v,
        None => default,
    }
}

/// A declaration passes: a valid path, the shared maximum (when one is set),
/// and a positive maximum within the per-file bound whose sum over all
/// declarations so far stays within the output total.
pub open spec fn declaration_accepted(
    limits: ArtifactLimits,
    uniform_max: Option<u64>,
    checked: u64,
    item: &DeclaredOutput,
) -> bool {
    let max = or_default(item.max_bytes, limits.output_file_bytes);
    let before = match uniform_max {
        Some(m) => m * checked,
        None => 0,
    };
    &&& declared_path_ok(item.path@)
    &&& (uniform_max is Some ==> uniform_max->0 == max)
    &&& 0 < max <= limits.output_file_bytes
    &&& before + max <= limits.output_bytes
}

/// The message that refuses a declaration, by the first check it fails.
pub open spec fn declaration_refusal(
    limits: ArtifactLimits,
    uniform_max: Option<u64>,
    checked: u64,
    item: &DeclaredOutput,
) -> Seq<char> {
    let max = or_default(item.max_bytes, limits.output_file_bytes);
    let before = match uniform_max {
        Some(m) => m * checked,
        None => 0,
    };
    if !declared_path_ok(item.path@) {
        "declared artifact output path is invalid"@
    } else if uniform_max is Some && uniform_max->0 != max {
        "declared outputs must use one uniform hard maximum"@
    } else if before + max > u64::MAX {
        "artifact output byte count overflowed"@
    } else {
        "declared outputs exceed their limits"@
    }
}

/// A manifest path may not hold a backslash.
pub fn check_manifest_path(path: &str) -> (out: Result<(), SandboxError>)
    ensures
        match out {
            Ok(()) => !path@.contains('\\'),
            Err(e) => path@.contains('\\') && e is PolicyViolation && error_detail(&e)
                == "artifact paths may not contain backslashes"@,
        },
{
    let chars = chars_of(path);
    if contains_char(&chars, '\\') {
        return Err(policy("artifact paths may not contain backslashes"));
    }
    Ok(())
}

/// Whether a declared output enters the manifest, from what its pinned
/// handle reports now: an empty optional output is left out; anything but
/// the same single-link regular file within its maximum means the output
/// changed after validation.
pub fn manifest_includes(required: bool, max_bytes: u64, is_file: bool, nlink: u64, size: u64) -> (out:
    Result<bool, SandboxError>)
    ensures
        match out {
            Ok(included) => included == !(size == 0 && !required) && (included ==> is_file
                && nlink == 1 && size <= max_bytes),
            Err(e) => !(size == 0 && !required) && !(is_file && nlink == 1 && size <= max_bytes)
                && e is Security && error_detail(&e) == "artifact changed after validation"@,
        },
{
    if size == 0 && !required {
        return Ok(false);
    }
    if !is_file || nlink != 1 || size > max_bytes {
        return Err(security("artifact changed after validation"));
    }
    Ok(true)
}

/// The SHA-256 digest of `data`.
pub uninterp spec fn sha256_digest(data: Seq<u8>) -> Seq<u8>;

/// `sha2::Sha256::digest`: the 32-byte SHA-256 digest of `data`.
#[verifier::external_body]
fn sha256(data: &[u8]) -> (out: Vec<u8>)
    ensures
        out@ == sha256_digest(data@),
        out@.len() == 32,
{
    sha2::Sha256::digest(data).to_vec()
}

/// One manifest entry: the output's path and size, and the lower-case hex
/// SHA-256 of its contents.
pub fn manifest_entry(path: String, size: u64, contents: &[u8]) -> (e: ArtifactManifestEntry)
    ensures
        e.path@ == path@,
        e.size == size,
        e.sha256@ == hex_lower(sha256_digest(contents@)),
{
    let digest = sha256(contents);
    let hex = hex_lower_chars(digest.as_slice());
    ArtifactManifestEntry { path, size, sha256: string_from_chars(&hex) }
}

pub open spec fn entry_paths_sorted(entries: Seq<ArtifactManifestEntry>) -> bool {
    forall|i: int, j: int|
        0 <= i < j < entries.len() ==> lex_le(#[trigger] entries[i].path@, #[trigger] entries[j].path@)
}

/// The manifest in path order: the same entries, sorted by path.
pub fn sort_manifest(entries: Vec<ArtifactManifestEntry>) -> (out: Vec<ArtifactManifestEntry>)
    ensures
        out@.to_multiset() == entries@.to_multiset(),
        entry_paths_sorted(out@),
{
    broadcast use vstd::seq_lib::group_to_multiset_ensures;
    let mut rest = entries;
    let mut out: Vec<ArtifactManifestEntry> = Vec::new();
    let ghost given = rest@;
    while rest.len() > 0
        invariant
            out@.to_multiset().add(rest@.to_multiset()) == given.to_multiset(),
            entry_paths_sorted(out@),
            forall|i: int, j: int|
                0 <= i < out@.len() && 0 <= j < rest@.len() ==> lex_le(
                    #[trigger] out@[i].path@,
                    #[trigger] rest@[j].path@,
                ),
        decreases rest.len(),
    {
        let mut best: usize = 0;
        let mut k: usize = 1;
        proof {
            crate::text::lemma_lex_le_total(rest@[0].path@, rest@[0].path@);
        }
        while k < rest.len()
            invariant
                0 <= best < rest.len(),
                1 <= k <= rest.len(),
                forall|j: int| 0 <= j < k ==> lex_le(rest@[best as int].path@, #[trigger] rest@[j].path@),
            decreases rest.len() - k,
        {
            let a = chars_of(rest[k].path.as_str());
            let b = chars_of(rest[best].path.as_str());
            if !lex_le_chars(&b, &a) {
                proof {
                    crate::text::lemma_lex_le_total(rest@[best as int].path@, rest@[k as int].path@);
                    crate::text::lemma_lex_le_total(rest@[k as int].path@, rest@[k as int].path@);
                    assert forall|j: int| 0 <= j < k + 1 implies lex_le(
                        rest@[k as int].path@,
                        #[trigger] rest@[j].path@,
                    ) by {
                        if j < k {
                            crate::text::lemma_lex_le_transitive(
                                rest@[k as int].path@,
                                rest@[best as int].path@,
                                rest@[j].path@,
                            );
                        }
                    }
                }
                best = k;
            } else {
                proof {
                    crate::text::lemma_lex_le_total(rest@[k as int].path@, rest@[k as int].path@);
                }
            }
            k += 1;
        }
        let ghost before_rest = rest@;
        let ghost before_out = out@;
        let chosen = rest.remove(best);
        proof {
            before_rest.to_multiset_ensures();
            assert(before_rest.remove(best as int).to_multiset() =~= before_rest.to_multiset().remove(
                before_rest[best as int],
            ));
        }
        out.push(chosen);
        proof {
            before_out.to_multiset_ensures();
            assert(out@ =~= before_out.push(chosen));
            assert(out@.to_multiset() =~= before_out.to_multiset().insert(chosen));
            assert forall|i: int, j: int| 0 <= i < out@.len() && 0 <= j < rest@.len() implies lex_le(
                #[trigger] out@[i].path@,
                #[trigger] rest@[j].path@,
            ) by {
                if i < before_out.len() {
                    if j < best {
                        assert(rest@[j] == before_rest[j]);
                    } else {
                        assert(rest@[j] == before_rest[j + 1]);
                    }
                } else {
                    if j < best {
                        assert(rest@[j] == before_rest[j]);
                    } else {
                        assert(rest@[j] == before_rest[j + 1]);
                    }
                }
            }
            assert forall|i: int, j: int| 0 <= i < j < out@.len() implies lex_le(
                #[trigger] out@[i].path@,
                #[trigger] out@[j].path@,
            ) by {
                if j < before_out.len() {
                } else {
                    assert(out@[j] == before_rest[best as int]);
                }
            }
        }
    }
    proof {
        assert(rest@.to_multiset() =~= vstd::multiset::Multiset::empty());
    }
    out
}


/// The message that refuses a directory others may write to.
pub open spec fn private_directory_message(label: Seq<char>) -> Seq<char> {
    label + " must be owned by the supervisor user and not group/world writable"@
}

/// A workspace directory must belong to the supervisor's user and be
/// writable by no group or other user.
pub fn check_private_directory(owner_uid: u32, effective_uid: u32, mode: u32, label: &str) -> (out:
    Result<(), SandboxError>)
    ensures
        match out {
            Ok(()) => owner_uid == effective_uid && mode & 0o22 == 0,
            Err(e) => !(owner_uid == effective_uid && mode & 0o22 == 0) && e is PolicyViolation
                && error_detail(&e) == private_directory_message(label@),
        },
{
    if owner_uid != effective_uid || mode & 0o22 != 0 {
        let mut message = chars_of(label);
        let mut tail = chars_of(" must be owned by the supervisor user and not group/world writable");
        message.append(&mut tail);
        return Err(SandboxError::PolicyViolation(string_from_chars(&message)));
    }
    Ok(())
}

} // verus!
