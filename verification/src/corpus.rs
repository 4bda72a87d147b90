//! Samples of a corpus of files.
//!
//! A sample is drawn in one pass: the first files fill it, and each file
//! after that takes the place of one of them if the number drawn for it
//! names a place.

use crate::doc::DocId;
use crate::doc_id::{blake3_digest, hash_bytes};
use crate::hex::{hex_of, hex_text};
use crate::text::{ascii_lower, chars_of, string_of_range, texts, to_ascii_lower, to_decimal};
use rand::{Rng, SeedableRng};
use vstd::prelude::*;

verus! {

// ---------------------------------------------------------------------
// Errors and arguments
// ---------------------------------------------------------------------

/// Why no sample was made.
#[derive(Clone, Copy, PartialEq, Eq, Debug, Structural)]
pub enum SampleError {
    /// A sample of nothing was asked for.
    SizeIsZero,
    /// The corpus is not a directory.
    RootNotADirectory,
    /// The destination is there and is not a directory.
    OutNotADirectory,
    /// The destination is not empty and may not be cleared.
    OutNotEmpty,
    /// The corpus holds no files of the kind.
    NothingFound,
}

/// What is to be sampled.
#[derive(Debug)]
pub struct SampleArgs {
    /// Corpus directory.
    pub root: String,
    /// Destination directory.
    pub out: String,
    /// Size of the sample.
    pub n: usize,
    /// Seed; none for a fresh sample on every run.
    pub seed: Option<u64>,
    /// Whether a destination that is not empty may be cleared.
    pub force: bool,
}

/// One copied file.
#[derive(Debug)]
pub struct ManifestEntry {
    /// Path in the corpus.
    pub source_path: String,
    /// Name under the destination.
    pub dest_name: String,
    /// Size.
    pub size_bytes: u64,
    /// Digest of the content, in hexadecimal.
    pub blake3: String,
    /// Time of the last change, in seconds since the epoch.
    pub source_mtime_epoch_s: Option<u64>,
}

/// The record of a sample.
#[derive(Debug)]
pub struct Manifest {
    /// Version of the program.
    pub generator_version: String,
    /// Corpus directory.
    pub source_root: String,
    /// Number of files that were sampled from.
    pub source_count: usize,
    /// Size that was asked for.
    pub requested_n: usize,
    /// Seed.
    pub seed: Option<u64>,
    /// Time of the sample, in seconds since the epoch.
    pub sampled_at_epoch_s: u64,
    /// The copied files.
    pub entries: Vec<ManifestEntry>,
}

/// What a run made.
#[derive(Debug)]
pub struct RunOutcome {
    /// The record of the sample.
    pub manifest: Manifest,
    /// Destination directory.
    pub out_dir: String,
}

// ---------------------------------------------------------------------
// Files
// ---------------------------------------------------------------------

/// Whether a file name ends in `.gldf`, in either case, behind at least
/// one other character.
pub open spec fn gldf_named(name: Seq<char>) -> bool {
    name.len() > 5 && ascii_lower(name.skip(name.len() - 5)) == ".gldf"@
}

/// Whether a file name is that of a GLDF file.
pub fn is_gldf_name(name: &str) -> (r: bool)
    ensures
        r == gldf_named(name@),
{
    let cs: Vec<char> = chars_of(name);
    if cs.len() <= 5 {
        return false;
    }
    let end: String = string_of_range(&cs, cs.len() - 5, cs.len());
    proof {
        assert(cs@.subrange(cs@.len() - 5, cs@.len() as int) =~= name@.skip(name@.len() - 5));
    }
    crate::text::same_text(to_ascii_lower(end.as_str()).as_str(), ".gldf")
}

/// The positions below `n` of the names of GLDF files.
pub open spec fn gldf_positions(names: Seq<Seq<char>>, n: int) -> Seq<int>
    decreases n,
{
    if n <= 0 {
        Seq::empty()
    } else if gldf_named(names[n - 1]) {
        gldf_positions(names, n - 1).push(n - 1)
    } else {
        gldf_positions(names, n - 1)
    }
}

/// Positions as mathematical integers.
pub open spec fn places(v: Seq<usize>) -> Seq<int> {
    v.map_values(|i: usize| i as int)
}

/// The positions of the names of GLDF files.
pub fn find_gldf(names: &Vec<String>) -> (r: Vec<usize>)
    ensures
        places(r@) == gldf_positions(texts(names@), names@.len() as int),
{
    let ghost all = texts(names@);
    let mut r: Vec<usize> = Vec::new();
    let mut i: usize = 0;
    proof {
        assert(places(r@) =~= Seq::empty());
    }
    while i < names.len()
        invariant
            i <= names@.len(),
            all == texts(names@),
            places(r@) == gldf_positions(all, i as int),
        decreases names@.len() - i,
    {
        proof {
            assert(all[i as int] == names@[i as int]@);
        }
        if is_gldf_name(names[i].as_str()) {
            let ghost before = places(r@);
            r.push(i);
            proof {
                assert(places(r@) =~= before.push(i as int));
            }
        }
        i += 1;
    }
    r
}

// ---------------------------------------------------------------------
// Sampling
// ---------------------------------------------------------------------

/// Whether `draws` can decide about `total` files: for each file beyond
/// the first `n` a number below the count of the files up to it.
pub open spec fn valid_draws(n: int, total: int, draws: Seq<u64>) -> bool {
    &&& draws.len() == (if total > n {
        total - n
    } else {
        0
    })
    &&& forall|k: int| 0 <= k < draws.len() ==> (#[trigger] draws[k]) < n + k + 1
}

/// The sample of at most `n` of the first `total` files.
pub open spec fn sampled(n: int, total: int, draws: Seq<u64>) -> Seq<int>
    decreases total,
{
    if total <= 0 {
        Seq::empty()
    } else {
        let front = sampled(n, total - 1, draws);
        if total <= n {
            front.push(total - 1)
        } else if draws[total - 1 - n] < n {
            front.update(draws[total - 1 - n] as int, total - 1)
        } else {
            front
        }
    }
}

/// A sample has the size that was asked for, or that of a smaller
/// corpus. It holds files of the corpus, none of them twice.
pub proof fn sample_is_a_choice(n: int, total: int, draws: Seq<u64>)
    requires
        0 < n,
        0 <= total,
        total > n ==> draws.len() >= total - n,
    ensures
        sampled(n, total, draws).len() == (if total < n {
            total
        } else {
            n
        }),
        forall|k: int|
            0 <= k < sampled(n, total, draws).len() ==> 0 <= (#[trigger] sampled(
                n,
                total,
                draws,
            )[k]) < total,
        sampled(n, total, draws).no_duplicates(),
    decreases total,
{
    if total > 0 {
        sample_is_a_choice(n, total - 1, draws);
        let front = sampled(n, total - 1, draws);
        let all = sampled(n, total, draws);
        assert forall|k: int| 0 <= k < all.len() implies 0 <= (#[trigger] all[k]) < total by {
            if k < front.len() {
                assert(0 <= front[k] < total - 1);
            }
        }
        assert forall|i: int, j: int| 0 <= i < j < all.len() implies all[i] != all[j] by {
            if i < front.len() {
                assert(0 <= front[i] < total - 1);
            }
            if j < front.len() {
                assert(0 <= front[j] < total - 1);
            }
        }
    }
}

/// A corpus no larger than the sample is taken whole, in order.
pub proof fn small_corpus_is_taken_whole(n: int, total: int, draws: Seq<u64>)
    requires
        0 <= total <= n,
    ensures
        sampled(n, total, draws) == Seq::new(total as nat, |i: int| i),
    decreases total,
{
    if total > 0 {
        small_corpus_is_taken_whole(n, total - 1, draws);
        assert(sampled(n, total, draws) =~= Seq::new(total as nat, |i: int| i));
    } else {
        assert(sampled(n, total, draws) =~= Seq::new(total as nat, |i: int| i));
    }
}

/// A file is taken for a GLDF file exactly if its name ends in `.gldf`, in
/// either case, behind something.
pub proof fn gldf_files_are_told_by_their_names(stem: Seq<char>, name: Seq<char>)
    ensures
        stem.len() > 0 ==> gldf_named(stem + ".gldf"@) && gldf_named(stem + ".GLDF"@),
        name.len() <= 5 ==> !gldf_named(name),
        gldf_named(name) ==> name[name.len() - 5] == '.' && (name[name.len() - 1] == 'f'
            || name[name.len() - 1] == 'F'),
        !gldf_named(stem + ".gldx"@),
        !gldf_named(stem + ".xldf"@),
{
    reveal_strlit(".gldf");
    reveal_strlit(".GLDF");
    reveal_strlit(".gldx");
    reveal_strlit(".xldf");
    let n = stem.len() as int;
    assert((stem + ".gldf"@).skip(n) =~= ".gldf"@);
    assert((stem + ".GLDF"@).skip(n) =~= ".GLDF"@);
    assert((stem + ".gldx"@).skip(n) =~= ".gldx"@);
    assert((stem + ".xldf"@).skip(n) =~= ".xldf"@);
    assert(ascii_lower(".gldf"@) =~= ".gldf"@);
    assert(ascii_lower(".GLDF"@) =~= ".gldf"@);
    assert(ascii_lower(".gldx"@)[4] == 'x');
    assert(ascii_lower(".xldf"@)[1] == 'x');
    if gldf_named(name) {
        let t = name.skip(name.len() - 5);
        assert(ascii_lower(t)[0] == '.' && ascii_lower(t)[4] == 'f');
        assert(t[0] == name[name.len() - 5] && t[4] == name[name.len() - 1]);
    }
}

/// The files of a corpus are all its GLDF files, in their order, each
/// once.
pub proof fn all_gldf_files_are_found(names: Seq<Seq<char>>, n: int, i: int)
    requires
        0 <= n <= names.len(),
        0 <= i,
    ensures
        gldf_positions(names, n).contains(i) <==> i < n && gldf_named(names[i]),
        forall|a: int, b: int|
            0 <= a < b < gldf_positions(names, n).len() ==> #[trigger] gldf_positions(names, n)[a]
                < #[trigger] gldf_positions(names, n)[b],
        forall|a: int|
            0 <= a < gldf_positions(names, n).len() ==> 0 <= #[trigger] gldf_positions(names, n)[a]
                < n,
    decreases n,
{
    if n > 0 {
        all_gldf_files_are_found(names, n - 1, i);
        let front = gldf_positions(names, n - 1);
        let all = gldf_positions(names, n);
        if gldf_named(names[n - 1]) {
            assert(all == front.push(n - 1));
            if front.contains(i) {
                let k = choose|k: int| 0 <= k < front.len() && front[k] == i;
                assert(all[k] == i);
            }
            if i == n - 1 {
                assert(all[front.len() as int] == i);
            }
            if all.contains(i) {
                let k = choose|k: int| 0 <= k < all.len() && all[k] == i;
                if k < front.len() {
                    assert(front[k] == i);
                }
            }
        }
    }
}

/// A file beyond the first ones takes the place that its number names,
/// where it names one, and is passed over otherwise; the others stay.
pub proof fn later_files_take_the_place_drawn(n: int, total: int, draws: Seq<u64>)
    requires
        0 < n < total,
        draws.len() >= total - n,
    ensures
        ({
            let before = sampled(n, total - 1, draws);
            let after = sampled(n, total, draws);
            let at = draws[total - 1 - n];
            &&& at >= n ==> after == before
            &&& at < n ==> after[at as int] == total - 1 && forall|k: int|
                0 <= k < n && k != at ==> after[k] == before[k]
        }),
{
    sample_is_a_choice(n, total - 1, draws);
}

/// The numbers that a seeded generator draws, one below each limit.
pub uninterp spec fn seeded_numbers(seed: u64, limits: Seq<u64>) -> Seq<u64>;

/// Draws with `rand::Rng::gen_range` from a `StdRng` that is made by
/// `seed_from_u64`. Each number is below its limit, and the numbers
/// depend on the seed and the limits alone.
#[verifier::external_body]
fn seeded_draws(seed: u64, limits: &Vec<u64>) -> (r: Vec<u64>)
    requires
        forall|k: int| 0 <= k < limits@.len() ==> 0 < #[trigger] limits@[k],
    ensures
        r@ == seeded_numbers(seed, limits@),
        r@.len() == limits@.len(),
        forall|k: int| 0 <= k < r@.len() ==> (#[trigger] r@[k]) < limits@[k],
{
    let mut rng = rand::rngs::StdRng::seed_from_u64(seed);
    limits.iter().map(|limit| rng.gen_range(0..*limit)).collect()
}

/// Draws with `rand::Rng::gen_range` from the generator of the thread.
/// Each number is below its limit; nothing else is known of it.
#[verifier::external_body]
fn fresh_draws(limits: &Vec<u64>) -> (r: Vec<u64>)
    requires
        forall|k: int| 0 <= k < limits@.len() ==> 0 < #[trigger] limits@[k],
    ensures
        r@.len() == limits@.len(),
        forall|k: int| 0 <= k < r@.len() ==> (#[trigger] r@[k]) < limits@[k],
{
    let mut rng = rand::thread_rng();
    limits.iter().map(|limit| rng.gen_range(0..*limit)).collect()
}

/// What each number is drawn below: the number of files up to and with
/// the one that it decides on.
pub open spec fn draw_limits(n: int, total: int) -> Seq<u64> {
    Seq::new((total - n) as nat, |k: int| (n + 1 + k) as u64)
}

/// The limits of the numbers for a sample of `n` out of `total` files.
fn limits_of(n: usize, total: usize) -> (r: Vec<u64>)
    requires
        n < total,
    ensures
        r@ == draw_limits(n as int, total as int),
{
    let mut r: Vec<u64> = Vec::new();
    let mut i: usize = n;
    proof {
        assert(r@ =~= draw_limits(n as int, n as int));
    }
    while i < total
        invariant
            n <= i <= total,
            r@ == draw_limits(n as int, i as int),
        decreases total - i,
    {
        i += 1;
        r.push(i as u64);
        proof {
            assert(r@ =~= draw_limits(n as int, i as int));
        }
    }
    r
}

/// The sample that some numbers decide on.
pub fn sample(n: usize, total: usize, draws: &Vec<u64>) -> (r: Vec<usize>)
    requires
        0 < n,
        valid_draws(n as int, total as int, draws@),
    ensures
        places(r@) == sampled(n as int, total as int, draws@),
{
    let mut r: Vec<usize> = Vec::new();
    let mut i: usize = 0;
    proof {
        assert(places(r@) =~= Seq::empty());
    }
    while i < total
        invariant
            0 < n,
            i <= total,
            valid_draws(n as int, total as int, draws@),
            places(r@) == sampled(n as int, i as int, draws@),
            r@.len() == (if i < n {
                i
            } else {
                n
            }),
        decreases total - i,
    {
        let ghost before = places(r@);
        if i < n {
            r.push(i);
            proof {
                assert(places(r@) =~= before.push(i as int));
            }
        } else {
            let j: u64 = draws[i - n];
            if j < n as u64 {
                r.set(j as usize, i);
                proof {
                    assert(places(r@) =~= before.update(j as int, i as int));
                }
            }
        }
        i += 1;
    }
    r
}

/// The files of the sample, by their positions among `found`.
pub open spec fn picked(found: Seq<int>, chosen: Seq<int>) -> Seq<int> {
    Seq::new(chosen.len(), |k: int| found[chosen[k]])
}

/// Whether a sample of `n` of the files at `found` is `r`. A seeded
/// sample is one and the same on every run.
pub open spec fn is_sample(found: Seq<int>, n: int, seed: Option<u64>, r: Seq<int>) -> bool {
    let total = found.len() as int;
    match seed {
        Some(s) => if total <= n {
            r == found
        } else {
            r == picked(
                found,
                sampled(n, total, seeded_numbers(s, draw_limits(n, total))),
            )
        },
        None => exists|draws: Seq<u64>|
            #[trigger] valid_draws(n, total, draws) && r == picked(
                found,
                sampled(n, total, draws),
            ),
    }
}

/// The same seed and the same corpus give the same sample.
pub proof fn seeded_sample_is_reproducible(
    found: Seq<int>,
    n: int,
    seed: u64,
    a: Seq<int>,
    b: Seq<int>,
)
    requires
        is_sample(found, n, Some(seed), a),
        is_sample(found, n, Some(seed), b),
    ensures
        a == b,
{
}

/// The sample of a directory: the positions of the chosen names, and the
/// number of GLDF files there.
pub fn reservoir_sample(
    root_is_dir: bool,
    names: &Vec<String>,
    n: usize,
    seed: Option<u64>,
) -> (r: Result<(Vec<usize>, usize), SampleError>)
    requires
        names@.len() < usize::MAX,
        n < usize::MAX,
    ensures
        ({
            let found = gldf_positions(texts(names@), names@.len() as int);
            match r {
                Ok((chosen, total)) => n > 0 && root_is_dir && total == found.len() && total > 0
                    && is_sample(found, n as int, seed, places(chosen@)),
                Err(SampleError::SizeIsZero) => n == 0,
                Err(SampleError::RootNotADirectory) => n > 0 && !root_is_dir,
                Err(SampleError::NothingFound) => n > 0 && root_is_dir && found.len() == 0,
                Err(_) => false,
            }
        }),
{
    if n == 0 {
        return Err(SampleError::SizeIsZero);
    }
    if !root_is_dir {
        return Err(SampleError::RootNotADirectory);
    }
    let found: Vec<usize> = find_gldf(names);
    proof {
        assert(places(found@).len() == found@.len());
    }
    let total: usize = found.len();
    if total == 0 {
        return Err(SampleError::NothingFound);
    }
    proof {
        gldf_positions_bounded(texts(names@), names@.len() as int);
    }
    let draws: Vec<u64> = if total <= n {
        Vec::new()
    } else {
        let limits: Vec<u64> = limits_of(n, total);
        match seed {
            Some(s) => seeded_draws(s, &limits),
            None => fresh_draws(&limits),
        }
    };
    let order: Vec<usize> = sample(n, total, &draws);
    proof {
        sample_is_a_choice(n as int, total as int, draws@);
        if total <= n {
            small_corpus_is_taken_whole(n as int, total as int, draws@);
        }
    }
    let ghost chosen_places = sampled(n as int, total as int, draws@);
    let mut chosen: Vec<usize> = Vec::new();
    let mut i: usize = 0;
    proof {
        assert(places(order@).len() == order@.len());
    }
    while i < order.len()
        invariant
            i <= order@.len(),
            chosen_places == places(order@),
            forall|k: int| 0 <= k < chosen_places.len() ==> 0 <= (#[trigger] chosen_places[k]) < found@.len(),
            chosen@.len() == i,
            forall|k: int| 0 <= k < i ==> (#[trigger] chosen@[k]) == found@[chosen_places[k]],
        decreases order@.len() - i,
    {
        proof {
            assert(chosen_places[i as int] == order@[i as int]);
        }
        chosen.push(found[order[i]]);
        i += 1;
    }
    proof {
        let f = places(found@);
        assert(places(chosen@) =~= picked(f, chosen_places));
        if total <= n {
            assert(picked(f, chosen_places) =~= f);
        }
        assert(valid_draws(n as int, total as int, draws@));
    }
    Ok((chosen, total))
}

proof fn gldf_positions_bounded(names: Seq<Seq<char>>, n: int)
    requires
        0 <= n <= names.len(),
    ensures
        gldf_positions(names, n).len() <= n,
    decreases n,
{
    if n > 0 {
        gldf_positions_bounded(names, n - 1);
    }
}

// ---------------------------------------------------------------------
// A run
// ---------------------------------------------------------------------

/// What stands at a destination.
#[derive(Clone, Copy, PartialEq, Eq, Debug, Structural)]
pub enum OutState {
    /// Nothing.
    Missing,
    /// Something that is not a directory.
    NotADirectory,
    /// An empty directory.
    Empty,
    /// A directory that is not empty.
    Filled,
}

/// What is to be done with a destination before files are copied there.
#[derive(Clone, Copy, PartialEq, Eq, Debug, Structural)]
pub enum OutAction {
    /// Make the directory.
    Create,
    /// Use it as it is.
    Keep,
    /// Remove what is in it.
    Clear,
}

/// What is to be done with a destination.
pub fn prepare_out_dir(state: OutState, force: bool) -> (r: Result<OutAction, SampleError>)
    ensures
        r == (match state {
            OutState::Missing => Ok::<OutAction, SampleError>(OutAction::Create),
            OutState::NotADirectory => Err(SampleError::OutNotADirectory),
            OutState::Empty => Ok(OutAction::Keep),
            OutState::Filled => if force {
                Ok(OutAction::Clear)
            } else {
                Err(SampleError::OutNotEmpty)
            },
        }),
{
    match state {
        OutState::Missing => Ok(OutAction::Create),
        OutState::NotADirectory => Err(SampleError::OutNotADirectory),
        OutState::Empty => Ok(OutAction::Keep),
        OutState::Filled => {
            if force {
                Ok(OutAction::Clear)
            } else {
                Err(SampleError::OutNotEmpty)
            }
        },
    }
}

/// The record of a copied file.
pub fn copy_one(
    source_path: String,
    dest_name: String,
    content: &[u8],
    source_mtime_epoch_s: Option<u64>,
) -> (r: ManifestEntry)
    ensures
        r.source_path@ == source_path@,
        r.dest_name@ == dest_name@,
        r.size_bytes == content@.len(),
        r.blake3@ == hex_text(blake3_digest(content@)),
        r.source_mtime_epoch_s == source_mtime_epoch_s,
{
    let digest: DocId = hash_bytes(content);
    ManifestEntry {
        source_path,
        dest_name,
        size_bytes: content.len() as u64,
        blake3: hex_of(&digest),
        source_mtime_epoch_s,
    }
}

/// The outcome of a run whose files have been copied.
pub fn run(
    args: &SampleArgs,
    version: String,
    root: String,
    out_dir: String,
    source_count: usize,
    entries: Vec<ManifestEntry>,
    now: u64,
) -> (r: Result<RunOutcome, SampleError>)
    ensures
        match r {
            Ok(o) => args.n > 0 && entries@.len() > 0 && o.out_dir@ == out_dir@
                && o.manifest.generator_version@ == version@ && o.manifest.source_root@ == root@
                && o.manifest.source_count == source_count && o.manifest.requested_n == args.n
                && o.manifest.seed == args.seed && o.manifest.sampled_at_epoch_s == now
                && o.manifest.entries@ == entries@,
            Err(SampleError::SizeIsZero) => args.n == 0,
            Err(SampleError::NothingFound) => args.n > 0 && entries@.len() == 0,
            Err(_) => false,
        },
{
    if args.n == 0 {
        return Err(SampleError::SizeIsZero);
    }
    if entries.len() == 0 {
        return Err(SampleError::NothingFound);
    }
    Ok(
        RunOutcome {
            manifest: Manifest {
                generator_version: version,
                source_root: root,
                source_count,
                requested_n: args.n,
                seed: args.seed,
                sampled_at_epoch_s: now,
                entries,
            },
            out_dir,
        },
    )
}

/// The size of the first `n` copied files together.
pub open spec fn size_of(entries: Seq<ManifestEntry>, n: int) -> nat
    decreases n,
{
    if n <= 0 {
        0
    } else {
        size_of(entries, n - 1) + entries[n - 1].size_bytes as nat
    }
}

proof fn size_rises(entries: Seq<ManifestEntry>, n: int, m: int)
    requires
        0 <= n <= m,
    ensures
        size_of(entries, n) <= size_of(entries, m),
    decreases m,
{
    if n < m {
        size_rises(entries, n, m - 1);
    }
}

/// How a seed is written behind the number of files.
pub open spec fn seed_part(seed: Option<u64>) -> Seq<char> {
    match seed {
        Some(s) => " (seed="@ + crate::text::decimal(s as nat) + ")"@,
        None => Seq::empty(),
    }
}

/// What is said of a run.
pub open spec fn run_lines(o: RunOutcome, manifest_path: Seq<char>) -> Seq<Seq<char>> {
    let m = o.manifest;
    let files = crate::text::decimal(m.entries@.len());
    seq![
        "sampled "@ + files + " of "@ + crate::text::decimal(m.source_count as nat)
            + " .gldf files"@ + seed_part(m.seed) + " \u{2192} "@ + o.out_dir@,
        "total "@ + crate::text::decimal(size_of(m.entries@, m.entries@.len() as int))
            + " bytes across "@ + files + " files (manifest at "@ + manifest_path + ")"@,
    ]
}

/// What is said of a run.
pub fn run_sample(o: &RunOutcome, manifest_path: &str) -> (r: Vec<String>)
    requires
        size_of(o.manifest.entries@, o.manifest.entries@.len() as int) <= u64::MAX,
    ensures
        texts(r@) == run_lines(*o, manifest_path@),
{
    let entries: &Vec<ManifestEntry> = &o.manifest.entries;
    let mut bytes: u64 = 0;
    let mut i: usize = 0;
    while i < entries.len()
        invariant
            i <= entries@.len(),
            bytes == size_of(entries@, i as int),
            size_of(entries@, entries@.len() as int) <= u64::MAX,
        decreases entries@.len() - i,
    {
        proof {
            size_rises(entries@, i + 1, entries@.len() as int);
        }
        bytes = bytes + entries[i].size_bytes;
        i += 1;
    }
    let files: String = to_decimal(entries.len() as u64);
    let mut a: String = crate::text::owned("sampled ");
    crate::text::push_text(&mut a, files.as_str());
    crate::text::push_text(&mut a, " of ");
    crate::text::push_text(&mut a, to_decimal(o.manifest.source_count as u64).as_str());
    crate::text::push_text(&mut a, " .gldf files");
    match o.manifest.seed {
        Some(s) => {
            let mut t: String = crate::text::owned(" (seed=");
            crate::text::push_text(&mut t, to_decimal(s).as_str());
            crate::text::push_text(&mut t, ")");
            crate::text::push_text(&mut a, t.as_str());
        },
        None => {
            proof {
                assert(a@ + Seq::<char>::empty() =~= a@);
            }
        },
    }
    crate::text::push_text(&mut a, " \u{2192} ");
    crate::text::push_text(&mut a, o.out_dir.as_str());
    let mut b: String = crate::text::owned("total ");
    crate::text::push_text(&mut b, to_decimal(bytes).as_str());
    crate::text::push_text(&mut b, " bytes across ");
    crate::text::push_text(&mut b, files.as_str());
    crate::text::push_text(&mut b, " files (manifest at ");
    crate::text::push_text(&mut b, manifest_path);
    crate::text::push_text(&mut b, ")");
    let mut r: Vec<String> = Vec::new();
    r.push(a);
    r.push(b);
    proof {
        assert(texts(r@) =~= run_lines(*o, manifest_path@));
    }
    r
}

} // verus!
