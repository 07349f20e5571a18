//! Copying the kept originals: what to copy where, and how a run went.
//!
//! The copying itself happens outside. [`ExportRun`] names the next copy and
//! takes in how it went; [`export_files`] is a whole run at once.

use vstd::prelude::*;

use crate::lookup::TextIndex;
use crate::path::{
    components, join, joined, last_name, lemma_pieces_named, name_of, named_pieces, pieces, texts,
};
use crate::text::{concat, decimal, decimal_text, from_chars, push_text, to_chars};

verus! {

/// One copy that failed.
#[derive(Clone, Debug, PartialEq, Eq)]
pub struct ExportFailure {
    /// The file.
    pub source: String,
    /// Why it could not be copied.
    pub reason: String,
}

/// How an export run went.
#[derive(Clone, Debug, PartialEq, Eq)]
pub struct ExportReport {
    /// Files written, or found to be in place already.
    pub copied: usize,
    /// Failures, in the order of the sources.
    pub failures: Vec<ExportFailure>,
    /// Whether the run was stopped before every source was tried.
    pub cancelled: bool,
}

impl Default for ExportReport {
    fn default() -> (report: Self)
        ensures
            report.copied == 0,
            report.failures@.len() == 0,
            !report.cancelled,
    {
        ExportReport { copied: 0, failures: Vec::new(), cancelled: false }
    }
}

impl ExportReport {
    /// Sources dealt with so far: copied and failed ones.
    pub fn processed(&self) -> (n: usize)
        requires
            self.copied + self.failures.len() <= usize::MAX,
        ensures
            n == self.copied + self.failures.len(),
    {
        self.copied + self.failures.len()
    }
}

/// Why a run could not start.
#[derive(Clone, Debug, PartialEq, Eq)]
pub enum ExportError {
    /// The destination is not a folder.
    Destination(String),
}

/// What an export error says.
pub open spec fn export_words(error: ExportError) -> Seq<char> {
    match error {
        ExportError::Destination(dir) => "cannot export into `"@ + dir@ + "`"@,
    }
}

impl ExportError {
    /// What the error says.
    pub fn message(&self) -> (text: String)
        ensures
            text@ == export_words(*self),
    {
        match self {
            ExportError::Destination(dir) => {
                let head: String = concat("cannot export into `", dir.as_str());
                concat(head.as_str(), "`")
            },
        }
    }
}

/// How one copy went.
#[derive(Clone, Debug, PartialEq, Eq)]
pub enum CopyResult {
    /// The file was written.
    Copied,
    /// Source and destination are the same file; nothing was touched.
    InPlace,
    /// The copy failed for this reason.
    Failed(String),
}

/// What a run does next.
#[derive(Clone, Debug, PartialEq, Eq)]
pub enum ExportStep {
    /// Copy this file to that path and record how it went.
    Copy {
        /// The original.
        source: String,
        /// Where it goes.
        dest: String,
    },
    /// The next source has no file name; that failure was recorded.
    Skipped,
    /// Every source was tried, or the run was cancelled.
    Finished,
}

/// A run in progress.
pub struct ExportRun {
    /// The originals, in order.
    pub sources: Vec<String>,
    /// Folder they go to.
    pub dest_dir: String,
    /// Number of sources tried.
    pub at: usize,
    /// The report so far.
    pub report: ExportReport,
}

/// Why a source without a file name fails.
pub open spec fn nameless_reason() -> Seq<char> {
    "path has no file name"@
}

/// The outcome of one source: `None` if it was copied or in place, else the
/// reason. A source without a file name is never copied.
pub open spec fn failure_of(source: Seq<char>, result: CopyResult) -> Option<Seq<char>> {
    if last_name(source) is None {
        Some(nameless_reason())
    } else {
        match result {
            CopyResult::Failed(reason) => Some(reason@),
            _ => None,
        }
    }
}

/// How many of the first `k` sources were copied or in place.
pub open spec fn copies(sources: Seq<String>, results: Seq<CopyResult>, k: int) -> int
    decreases k,
{
    if k <= 0 {
        0
    } else {
        copies(sources, results, k - 1) + if failure_of(sources[k - 1]@, results[k - 1]) is None {
            1int
        } else {
            0
        }
    }
}

/// The failures among the first `k` sources, each with its reason.
pub open spec fn failures(sources: Seq<String>, results: Seq<CopyResult>, k: int) -> Seq<(Seq<char>, Seq<char>)>
    decreases k,
{
    if k <= 0 {
        Seq::empty()
    } else {
        let before = failures(sources, results, k - 1);
        match failure_of(sources[k - 1]@, results[k - 1]) {
            Some(reason) => before.push((sources[k - 1]@, reason)),
            None => before,
        }
    }
}

/// The failures of a report as texts.
pub open spec fn failure_texts(list: Seq<ExportFailure>) -> Seq<(Seq<char>, Seq<char>)> {
    Seq::new(list.len(), |i: int| (list[i].source@, list[i].reason@))
}

/// Every tried source is either copied or failed.
pub proof fn tried_is_copied_or_failed(sources: Seq<String>, results: Seq<CopyResult>, k: int)
    requires
        k >= 0,
    ensures
        copies(sources, results, k) + failures(sources, results, k).len() == k,
        0 <= copies(sources, results, k) <= k,
    decreases k,
{
    if k > 0 {
        tried_is_copied_or_failed(sources, results, k - 1);
    }
}

impl ExportRun {
    /// The report counts exactly the sources tried so far.
    pub open spec fn wf(self) -> bool {
        &&& self.at <= self.sources.len()
        &&& self.report.copied + self.report.failures.len() == self.at
    }

    /// Starts a run; the destination has to be a folder.
    pub fn begin(sources: Vec<String>, dest_dir: &String, dest_is_dir: bool) -> (run: Result<Self, ExportError>)
        ensures
            match run {
                Ok(run) => {
                    &&& dest_is_dir
                    &&& run.wf()
                    &&& run.sources == sources
                    &&& run.dest_dir == *dest_dir
                    &&& run.at == 0
                    &&& run.report.copied == 0
                    &&& run.report.failures@.len() == 0
                    &&& !run.report.cancelled
                },
                Err(ExportError::Destination(dir)) => !dest_is_dir && dir == *dest_dir,
            },
    {
        if !dest_is_dir {
            return Err(ExportError::Destination(dest_dir.clone()));
        }
        Ok(
            ExportRun {
                sources,
                dest_dir: dest_dir.clone(),
                at: 0,
                report: ExportReport { copied: 0, failures: Vec::new(), cancelled: false },
            },
        )
    }

    /// What to do next. `cancel` is the state of the stop switch just now: it
    /// stops the run only while there is a source left to try.
    pub fn next(&mut self, cancel: bool) -> (step: ExportStep)
        requires
            old(self).wf(),
        ensures
            final(self).wf(),
            final(self).sources == old(self).sources,
            final(self).dest_dir == old(self).dest_dir,
            if old(self).at == old(self).sources.len() {
                step == ExportStep::Finished && *final(self) == *old(self)
            } else if cancel {
                &&& step == ExportStep::Finished
                &&& final(self).at == old(self).at
                &&& final(self).report == (ExportReport { cancelled: true, ..old(self).report })
            } else {
                let source = old(self).sources@[old(self).at as int];
                match last_name(source@) {
                    None => {
                        &&& step == ExportStep::Skipped
                        &&& final(self).at == old(self).at + 1
                        &&& final(self).report.copied == old(self).report.copied
                        &&& final(self).report.cancelled == old(self).report.cancelled
                        &&& failure_texts(final(self).report.failures@) == failure_texts(
                            old(self).report.failures@,
                        ).push((source@, nameless_reason()))
                    },
                    Some(name) => {
                        &&& step matches ExportStep::Copy { source: from, dest: to }
                        &&& from == source
                        &&& to@ == joined(old(self).dest_dir@, name)
                        &&& *final(self) == *old(self)
                    },
                }
            },
    {
        if self.at == self.sources.len() {
            return ExportStep::Finished;
        }
        if cancel {
            self.report.cancelled = true;
            return ExportStep::Finished;
        }
        let source: String = self.sources[self.at].clone();
        match name_of(source.as_str()) {
            Some(name) => ExportStep::Copy { dest: join(self.dest_dir.as_str(), name.as_str()), source },
            None => {
                let ghost before = self.report.failures@;
                self.report.failures.push(ExportFailure { source, reason: "path has no file name".to_owned() });
                self.at = self.at + 1;
                proof {
                    assert(failure_texts(self.report.failures@) =~= failure_texts(before).push(
                        (source@, nameless_reason()),
                    ));
                }
                ExportStep::Skipped
            },
        }
    }

    /// Takes in how the copy of the current source went; returns the number
    /// of sources tried, for the progress display.
    pub fn record(&mut self, result: CopyResult) -> (done: usize)
        requires
            old(self).wf(),
            old(self).at < old(self).sources.len(),
            last_name(old(self).sources@[old(self).at as int]@) is Some,
        ensures
            final(self).wf(),
            final(self).sources == old(self).sources,
            final(self).dest_dir == old(self).dest_dir,
            final(self).at == old(self).at + 1,
            done == final(self).at,
            final(self).report.cancelled == old(self).report.cancelled,
            ({
                let source = old(self).sources@[old(self).at as int];
                match failure_of(source@, result) {
                    None => {
                        &&& final(self).report.copied == old(self).report.copied + 1
                        &&& final(self).report.failures == old(self).report.failures
                    },
                    Some(reason) => {
                        &&& final(self).report.copied == old(self).report.copied
                        &&& failure_texts(final(self).report.failures@) == failure_texts(
                            old(self).report.failures@,
                        ).push((source@, reason))
                    },
                }
            }),
    {
        match result {
            CopyResult::Copied | CopyResult::InPlace => {
                self.report.copied = self.report.copied + 1;
            },
            CopyResult::Failed(reason) => {
                let ghost before = self.report.failures@;
                let source: String = self.sources[self.at].clone();
                self.report.failures.push(ExportFailure { source, reason });
                proof {
                    assert(failure_texts(self.report.failures@) =~= failure_texts(before).push((source@, reason@)));
                }
            },
        }
        self.at = self.at + 1;
        self.report.processed()
    }
}

/// How far a run gets: to the end, or to where the stop switch was seen.
pub open spec fn reach(sources: int, stop: Option<usize>) -> int {
    match stop {
        Some(k) => if k < sources {
            k as int
        } else {
            sources
        },
        None => sources,
    }
}

/// A whole run, given how each copy went (`results`, one for each source)
/// and before which source the stop switch was seen, if it was. Returns the
/// report and the progress ticks.
pub fn export_files(
    sources: Vec<String>,
    dest_dir: &String,
    dest_is_dir: bool,
    results: Vec<CopyResult>,
    stop: Option<usize>,
) -> (outcome: Result<(ExportReport, Vec<usize>), ExportError>)
    requires
        results.len() == sources.len(),
    ensures
        match outcome {
            Ok((report, ticks)) => {
                let k = reach(sources@.len() as int, stop);
                &&& dest_is_dir
                &&& report.copied == copies(sources@, results@, k)
                &&& failure_texts(report.failures@) == failures(sources@, results@, k)
                &&& report.cancelled == (k < sources@.len())
                &&& ticks@ == Seq::new(k as nat, |i: int| (i + 1) as usize)
            },
            Err(ExportError::Destination(dir)) => !dest_is_dir && dir == *dest_dir,
        },
{
    let ghost all = sources@;
    let ghost outcomes = results@;
    let ghost end = reach(all.len() as int, stop);
    let total: usize = sources.len();
    let mut run: ExportRun = match ExportRun::begin(sources, dest_dir, dest_is_dir) {
        Ok(run) => run,
        Err(error) => {
            return Err(error);
        },
    };
    let mut ticks: Vec<usize> = Vec::new();
    let mut results = results;
    let mut k: usize = 0;
    proof {
        assert(failure_texts(run.report.failures@) =~= failures(all, outcomes, 0));
        assert(outcomes.skip(0) =~= outcomes);
    }
    while k < total
        invariant_except_break
            k <= end,
            !run.report.cancelled,
        invariant
            dest_is_dir,
            total == all.len(),
            outcomes.len() == all.len(),
            k <= total,
            end == reach(all.len() as int, stop),
            run.wf(),
            run.at == k,
            run.sources@ == all,
            results@ == outcomes.skip(k as int),
            run.report.copied == copies(all, outcomes, k as int),
            failure_texts(run.report.failures@) == failures(all, outcomes, k as int),
            ticks@ =~= Seq::new(k as nat, |i: int| (i + 1) as usize),
        ensures
            k == end,
            run.report.cancelled == (k < all.len()),
        decreases total - k,
    {
        let cancel: bool = match stop {
            Some(s) => s <= k,
            None => false,
        };
        let step: ExportStep = run.next(cancel);
        match step {
            ExportStep::Finished => {
                break;
            },
            ExportStep::Skipped => {
                results.remove(0);
            },
            ExportStep::Copy { source, dest } => {
                let result: CopyResult = results.remove(0);
                run.record(result);
            },
        }
        proof {
            assert(results@ =~= outcomes.skip(k + 1));
        }
        k = k + 1;
        ticks.push(k);
    }
    Ok((run.report, ticks))
}

/// Whether source `k` has a file name that no earlier source has.
pub open spec fn first_of_its_name(sources: Seq<String>, k: int) -> bool {
    &&& last_name(sources[k]@) is Some
    &&& forall|j: int| 0 <= j < k ==> last_name((#[trigger] sources[j])@) != last_name(sources[k]@)
}

/// The file names of the first `k` sources, each once, in order.
pub open spec fn distinct_names(sources: Seq<String>, k: int) -> Seq<Seq<char>>
    decreases k,
{
    if k <= 0 {
        Seq::empty()
    } else {
        let before = distinct_names(sources, k - 1);
        if first_of_its_name(sources, k - 1) {
            before.push(last_name(sources[k - 1]@)->0)
        } else {
            before
        }
    }
}

/// The contents of a list of texts.
pub open spec fn contents(list: Seq<String>) -> Seq<Seq<char>> {
    Seq::new(list.len(), |i: int| list[i]@)
}

/// The file names that an export would write, each once, in order.
pub fn candidate_names(sources: &Vec<String>) -> (names: Vec<String>)
    ensures
        contents(names@) == distinct_names(sources@, sources@.len() as int),
{
    // Names by source; a source without one gets the empty text, which is
    // nobody's name.
    let mut keys: Vec<Vec<char>> = Vec::new();
    let mut i: usize = 0;
    while i < sources.len()
        invariant
            i <= sources.len(),
            keys.len() == i,
            forall|k: int| 0 <= k < i ==> (#[trigger] keys@[k])@ == name_or_empty(sources@[k]@),
        decreases sources.len() - i,
    {
        match name_of(sources[i].as_str()) {
            Some(name) => {
                keys.push(to_chars(name.as_str()));
            },
            None => {
                keys.push(Vec::new());
                proof {
                    assert(keys@[i as int]@ =~= Seq::<char>::empty());
                }
            },
        }
        i = i + 1;
    }
    let ghost list = texts(keys@);
    let index: TextIndex = TextIndex::new(keys);
    let mut names: Vec<String> = Vec::new();
    let mut k: usize = 0;
    proof {
        assert(contents(names@) =~= distinct_names(sources@, 0));
    }
    while k < sources.len()
        invariant
            k <= sources.len(),
            index@ == list,
            list.len() == sources.len(),
            forall|j: int| 0 <= j < list.len() ==> #[trigger] list[j] == name_or_empty(sources@[j]@),
            contents(names@) == distinct_names(sources@, k as int),
        decreases sources.len() - k,
    {
        match name_of(sources[k].as_str()) {
            Some(name) => {
                let wanted: Vec<char> = to_chars(name.as_str());
                proof {
                    lemma_names_are_not_empty(sources@[k as int]@);
                    assert(list[k as int] == wanted@);
                }
                let first: bool = match index.find(&wanted) {
                    Some(j) => j == k,
                    None => false,
                };
                proof {
                    assert(first == first_of_its_name(sources@, k as int)) by {
                        if first {
                            assert forall|j: int| 0 <= j < k implies last_name((#[trigger] sources@[j])@)
                                != last_name(sources@[k as int]@) by {
                                assert(list[j] != wanted@);
                            }
                        } else {
                            let j = choose|j: int| 0 <= j < k && #[trigger] list[j] == wanted@;
                            lemma_names_are_not_empty(sources@[j]@);
                            assert(last_name(sources@[j]@) == last_name(sources@[k as int]@));
                        }
                    }
                }
                if first {
                    let ghost before = names@;
                    names.push(name);
                    proof {
                        assert(contents(names@) =~= contents(before).push(name@));
                    }
                }
            },
            None => {},
        }
        k = k + 1;
    }
    names
}

spec fn name_or_empty(path: Seq<char>) -> Seq<char> {
    match last_name(path) {
        Some(name) => name,
        None => Seq::empty(),
    }
}

proof fn lemma_names_are_not_empty(path: Seq<char>)
    ensures
        last_name(path) matches Some(name) ==> name.len() > 0,
{
    lemma_pieces_named(pieces(path));
    if last_name(path) is Some {
        let parts = components(path);
        let named = named_pieces(pieces(path));
        if parts.last().len() == 0 {
            assert(named.len() > 0 ==> parts.last() == named.last());
            if named.len() == 0 {
                assert(parts.last() == seq!['/']);
            }
        }
    }
}

/// The names among `names` that the destination holds already.
pub open spec fn held(names: Seq<Seq<char>>, present: Seq<Seq<char>>) -> Seq<Seq<char>>
    decreases names.len(),
{
    if names.len() == 0 {
        Seq::empty()
    } else {
        let before = held(names.drop_last(), present);
        if present.contains(names.last()) {
            before.push(names.last())
        } else {
            before
        }
    }
}

/// The file names that an export would overwrite: those of the sources, each
/// once and in order, that are among the names present in the destination.
pub fn existing_names(sources: &Vec<String>, present: &Vec<String>) -> (names: Vec<String>)
    ensures
        contents(names@) == held(distinct_names(sources@, sources@.len() as int), contents(present@)),
{
    let candidates: Vec<String> = candidate_names(sources);
    let mut keys: Vec<Vec<char>> = Vec::new();
    let mut i: usize = 0;
    while i < present.len()
        invariant
            i <= present.len(),
            keys.len() == i,
            forall|k: int| 0 <= k < i ==> (#[trigger] keys@[k])@ == present@[k]@,
        decreases present.len() - i,
    {
        keys.push(to_chars(present[i].as_str()));
        i = i + 1;
    }
    proof {
        assert(texts(keys@) =~= contents(present@));
    }
    let index: TextIndex = TextIndex::new(keys);
    let mut names: Vec<String> = Vec::new();
    let mut k: usize = 0;
    let ghost all = contents(candidates@);
    proof {
        assert(all.take(0) =~= Seq::<Seq<char>>::empty());
        assert(contents(names@) =~= Seq::<Seq<char>>::empty());
    }
    while k < candidates.len()
        invariant
            k <= candidates.len(),
            index@ == contents(present@),
            all == contents(candidates@),
            contents(names@) == held(all.take(k as int), contents(present@)),
        decreases candidates.len() - k,
    {
        let wanted: Vec<char> = to_chars(candidates[k].as_str());
        proof {
            assert(all.take(k + 1).drop_last() =~= all.take(k as int));
            assert(all.take(k + 1).last() == wanted@);
        }
        let found: Option<usize> = index.find(&wanted);
        proof {
            assert(found is Some == contents(present@).contains(wanted@));
        }
        if found.is_some() {
            let ghost before = names@;
            names.push(candidates[k].clone());
            proof {
                assert(contents(names@) =~= contents(before).push(wanted@));
            }
        }
        k = k + 1;
    }
    proof {
        assert(all.take(k as int) =~= all);
    }
    names
}

/// What the overwrite question says of the names: all of up to four, else
/// the first four and how many more there are.
pub open spec fn preview_of_names(names: Seq<Seq<char>>) -> Seq<char> {
    if names.len() <= 4 {
        comma_joined(names)
    } else {
        comma_joined(names.take(4)) + ", … and "@ + decimal((names.len() - 4) as nat) + " more"@
    }
}

/// Texts with commas between them.
pub open spec fn comma_joined(names: Seq<Seq<char>>) -> Seq<char>
    decreases names.len(),
{
    if names.len() == 0 {
        Seq::empty()
    } else if names.len() == 1 {
        names[0]
    } else {
        comma_joined(names.drop_last()) + ", "@ + names.last()
    }
}

/// Writes the names for the overwrite question.
pub fn names_preview(names: &Vec<String>) -> (text: String)
    ensures
        text@ == preview_of_names(contents(names@)),
{
    let shown: usize = if names.len() <= 4 {
        names.len()
    } else {
        4
    };
    let ghost all = contents(names@);
    let mut out: Vec<char> = Vec::new();
    let mut i: usize = 0;
    proof {
        assert(all.take(0) =~= Seq::<Seq<char>>::empty());
        assert(out@ =~= comma_joined(all.take(0)));
    }
    while i < shown
        invariant
            i <= shown <= names.len(),
            all == contents(names@),
            out@ == comma_joined(all.take(i as int)),
        decreases shown - i,
    {
        if i > 0 {
            push_text(&mut out, ", ");
        }
        push_text(&mut out, names[i].as_str());
        proof {
            let next = all.take(i + 1);
            assert(next.drop_last() =~= all.take(i as int));
            assert(next.last() == names@[i as int]@);
            if i == 0 {
                assert(Seq::<char>::empty() + names@[0]@ =~= names@[0]@);
            }
        }
        i = i + 1;
    }
    if names.len() > 4 {
        push_text(&mut out, ", … and ");
        let more: String = decimal_text((names.len() - 4) as u64);
        push_text(&mut out, more.as_str());
        push_text(&mut out, " more");
    } else {
        proof {
            assert(all.take(shown as int) =~= all);
        }
    }
    from_chars(&out)
}

/// The noun for a number of files.
pub fn file_noun(count: usize) -> (noun: &'static str)
    ensures
        noun@ == (if count == 1 {
            "file"@
        } else {
            "files"@
        }),
{
    if count == 1 {
        "file"
    } else {
        "files"
    }
}

} // verus!
