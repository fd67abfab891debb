use vstd::prelude::*;

verus! {

/// The operation a run performs on its target files.
#[derive(Debug, Clone, Copy, PartialEq, Eq, Structural)]
pub enum Task {
    RemoveDomains,
    RemoveDuplicatesFast,
    RemoveDuplicatesSlow,
    RemoveDuplicatesSorted,
    ExtractDuplicates,
    SplitByLines,
    SplitByParts,
    Merge,
    Shuffle,
    ExtractLogins,
    ExtractPasswords,
    ExtractPhones,
    Compare,
}

/// The file-name suffix that marks the output of each task.
pub open spec fn suffix_of(task: Task) -> Seq<char> {
    match task {
        Task::RemoveDomains => "_no_domains"@,
        Task::RemoveDuplicatesFast => "_no_duplicates"@,
        Task::RemoveDuplicatesSlow => "_no_duplicates"@,
        Task::RemoveDuplicatesSorted => "_no_duplicates"@,
        Task::SplitByLines => "_splitted_{num}"@,
        Task::SplitByParts => "_splitted_{num}"@,
        Task::Merge => "_merged"@,
        Task::Shuffle => "_randomized"@,
        Task::ExtractLogins => "_logins"@,
        Task::ExtractPasswords => "_passwords"@,
        Task::ExtractPhones => "_phones"@,
        Task::ExtractDuplicates => "_duplicates"@,
        Task::Compare => "_uniq_{file}"@,
    }
}

impl Task {
    /// Suffix appended to an output file's stem; `{num}` and `{file}` are
    /// placeholders filled in by the caller.
    pub fn to_suffix(self) -> (r: &'static str)
        ensures
            r@ == suffix_of(self),
    {
        match self {
            Task::RemoveDomains => "_no_domains",
            Task::RemoveDuplicatesFast | Task::RemoveDuplicatesSlow
            | Task::RemoveDuplicatesSorted => "_no_duplicates",
            Task::SplitByLines | Task::SplitByParts => "_splitted_{num}",
            Task::Merge => "_merged",
            Task::Shuffle => "_randomized",
            Task::ExtractLogins => "_logins",
            Task::ExtractPasswords => "_passwords",
            Task::ExtractPhones => "_phones",
            Task::ExtractDuplicates => "_duplicates",
            Task::Compare => "_uniq_{file}",
        }
    }
}

} // verus!
