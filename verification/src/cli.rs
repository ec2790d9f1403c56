//! What the program is asked to do.

use vstd::prelude::*;
use vstd::string::StrSliceExecFns;

verus! {

/// How the program is called.
pub const USAGE: &'static str = "Usage: oxide [--all|-a] <DIRECTORY>";

/// What a call of the program asks for.
pub enum Invocation {
    /// Work on the files below a directory: on all of them, or on those without a fingerprint.
    Run { root: String, process_all: bool },
    /// No directory is given.
    Usage,
    /// There is an option that the program does not know.
    UnknownOption(String),
    /// There is an argument after the directory that is no option.
    ExtraArgument,
}

/// Whether an argument asks for all files to be worked on.
pub open spec fn is_all_flag(arg: Seq<char>) -> bool {
    arg == "--all"@ || arg == "-a"@
}

/// Whether an argument is an option that the program does not know.
pub open spec fn is_unknown_option(arg: Seq<char>) -> bool {
    arg.len() > 0 && arg[0] == '-' && !is_all_flag(arg)
}

/// Whether an argument is no option.
pub open spec fn is_operand(arg: Seq<char>) -> bool {
    !is_all_flag(arg) && !is_unknown_option(arg)
}

/// Whether the first argument that is no option stands at `i`.
pub open spec fn is_first_operand(args: Seq<String>, i: int) -> bool {
    &&& 0 <= i < args.len()
    &&& is_operand(args[i]@)
    &&& forall|j: int| 0 <= j < i ==> !is_operand((#[trigger] args[j])@)
}

/// Whether there is an argument that is no option among the first `n`.
pub open spec fn has_operand(args: Seq<String>, n: int) -> bool {
    exists|i: int| 0 <= i < n && is_operand((#[trigger] args[i])@)
}

/// Whether the argument at `i` cannot be taken: an unknown option, or one that is no option and
/// not the first of its kind.
pub open spec fn is_fault(args: Seq<String>, i: int) -> bool {
    is_unknown_option(args[i]@) || (is_operand(args[i]@) && has_operand(args, i))
}

/// Whether the first argument that cannot be taken stands at `i`.
pub open spec fn is_first_fault(args: Seq<String>, i: int) -> bool {
    &&& 0 <= i < args.len()
    &&& is_fault(args, i)
    &&& forall|j: int| 0 <= j < i ==> !#[trigger] is_fault(args, j)
}

/// Whether there is no argument among the first `n` that cannot be taken.
pub open spec fn is_faultless(args: Seq<String>, n: int) -> bool {
    forall|j: int| 0 <= j < n ==> !#[trigger] is_fault(args, j)
}

/// Whether one of the first `n` arguments asks for all files to be worked on.
pub open spec fn has_all_flag(args: Seq<String>, n: int) -> bool {
    exists|i: int| 0 <= i < n && is_all_flag((#[trigger] args[i])@)
}

/// Whether an argument is the given text.
fn is_text(arg: &String, text: &str) -> (r: bool)
    ensures
        r == (arg@ == text@),
{
    *arg == text.to_owned()
}

/// Whether an argument starts with a hyphen.
fn starts_with_hyphen(arg: &String) -> (r: bool)
    ensures
        r == (arg@.len() > 0 && arg@[0] == '-'),
{
    let text: &str = arg.as_str();
    text.unicode_len() > 0 && text.get_char(0) == '-'
}

/// Whether `r` is what the arguments ask for.
pub open spec fn is_invocation(args: Seq<String>, r: Invocation) -> bool {
    match r {
        Invocation::Run { root, process_all } => {
            &&& is_faultless(args, args.len() as int)
            &&& exists|i: int| #[trigger] is_first_operand(args, i) && root@ == args[i]@
            &&& process_all == has_all_flag(args, args.len() as int)
        },
        Invocation::Usage => {
            &&& is_faultless(args, args.len() as int)
            &&& !has_operand(args, args.len() as int)
        },
        Invocation::UnknownOption(arg) => exists|i: int| #[trigger]
            is_first_fault(args, i) && is_unknown_option(args[i]@) && arg@ == args[i]@,
        Invocation::ExtraArgument => exists|i: int| #[trigger]
            is_first_fault(args, i) && is_operand(args[i]@),
    }
}

/// What is asked for by the arguments after the program's name. The first one that cannot be
/// taken decides.
pub fn parse_args(args: &Vec<String>) -> (r: Invocation)
    ensures
        is_invocation(args@, r),
        match r {
            Invocation::Run { root, process_all } => {
                &&& is_faultless(args@, args@.len() as int)
                &&& exists|i: int| #[trigger] is_first_operand(args@, i) && root@ == args@[i]@
                &&& process_all == has_all_flag(args@, args@.len() as int)
            },
            Invocation::Usage => {
                &&& is_faultless(args@, args@.len() as int)
                &&& !has_operand(args@, args@.len() as int)
            },
            Invocation::UnknownOption(arg) => exists|i: int| #[trigger]
                is_first_fault(args@, i) && is_unknown_option(args@[i]@) && arg@ == args@[i]@,
            Invocation::ExtraArgument => exists|i: int| #[trigger]
                is_first_fault(args@, i) && is_operand(args@[i]@),
        },
{
    let mut root: Option<usize> = None;
    let mut process_all: bool = false;
    let mut i: usize = 0;
    while i < args.len()
        invariant
            i <= args.len(),
            is_faultless(args@, i as int),
            process_all == has_all_flag(args@, i as int),
            match root {
                Some(k) => k < i && is_first_operand(args@, k as int),
                None => !has_operand(args@, i as int),
            },
        decreases args.len() - i,
    {
        let arg: &String = &args[i];
        if is_text(arg, "--all") || is_text(arg, "-a") {
            process_all = true;
            assert(is_all_flag(args@[i as int]@));
        } else if starts_with_hyphen(arg) {
            assert(is_first_fault(args@, i as int));
            return Invocation::UnknownOption(arg.clone());
        } else if root.is_none() {
            root = Some(i);
            assert(is_first_operand(args@, i as int));
        } else {
            proof {
                let k = root->0 as int;
                assert(is_operand(args@[k]@));
                assert(has_operand(args@, i as int));
                assert(is_first_fault(args@, i as int));
            }
            return Invocation::ExtraArgument;
        }
        i = i + 1;
    }
    match root {
        Some(k) => {
            let root: String = args[k].clone();
            assert(is_first_operand(args@, k as int));
            Invocation::Run { root, process_all }
        },
        None => Invocation::Usage,
    }
}

/// The type number of a `tmpfs` filesystem.
pub const TMPFS_MAGIC: i64 = 0x01021994;

/// The type number of a `ramfs` filesystem.
pub const RAMFS_MAGIC: i64 = 0x858458f6;

/// Whether a filesystem of the given type is held in memory.
pub open spec fn is_memory_type(filesystem_type: Option<i64>) -> bool {
    filesystem_type == Some(TMPFS_MAGIC) || filesystem_type == Some(RAMFS_MAGIC)
}

/// Whether a filesystem of the given type is held in memory, and files on it are to be worked on
/// in parallel. One of unknown type is not.
pub fn is_in_ram(filesystem_type: Option<i64>) -> (r: bool)
    ensures
        r == is_memory_type(filesystem_type),
        r == (filesystem_type == Some(TMPFS_MAGIC) || filesystem_type == Some(RAMFS_MAGIC)),
{
    match filesystem_type {
        Some(number) => number == TMPFS_MAGIC || number == RAMFS_MAGIC,
        None => false,
    }
}

/// A filesystem is held in memory if and only if its type number is that of `tmpfs` or that of
/// `ramfs`.
pub proof fn memory_types_are_known(number: i64)
    ensures
        is_memory_type(Some(number)) <==> number == 16_914_836 || number == 2_240_043_254,
        !is_memory_type(None),
{
}

/// Both spellings of the flag start with a hyphen.
proof fn flags_start_with_a_hyphen()
    ensures
        "--all"@.len() > 0 && "--all"@[0] == '-',
        "-a"@.len() > 0 && "-a"@[0] == '-',
{
    reveal_strlit("--all");
    reveal_strlit("-a");
}

/// Where the arguments are taken as a run, exactly one of them is neither `--all` nor `-a`. It is
/// the directory, and does not start with a hyphen. All files are to be worked on if and only if
/// one of those two is there, at whatever position.
pub proof fn run_is_what_was_asked_for(args: Seq<String>, root: String, process_all: bool) -> (k:
    int)
    requires
        is_invocation(args, (Invocation::Run { root, process_all })),
    ensures
        0 <= k < args.len(),
        root@ == args[k]@,
        root@.len() == 0 || root@[0] != '-',
        forall|i: int|
            0 <= i < args.len() ==> (i != k <==> ((#[trigger] args[i])@ == "--all"@ || args[i]@
                == "-a"@)),
        process_all <==> exists|i: int|
            0 <= i < args.len() && ((#[trigger] args[i])@ == "--all"@ || args[i]@ == "-a"@),
{
    flags_start_with_a_hyphen();
    let k = choose|k: int| #[trigger] is_first_operand(args, k) && root@ == args[k]@;
    assert forall|i: int| 0 <= i < args.len() implies (i != k <==> ((#[trigger] args[i])@
        == "--all"@ || args[i]@ == "-a"@)) by {
        assert(!is_fault(args, i));
        if i > k && is_operand(args[i]@) {
            assert(is_operand(args[k]@));
            assert(has_operand(args, i));
        }
        if i < k {
            assert(!is_operand(args[i]@));
        }
    }
    if has_all_flag(args, args.len() as int) {
        let i = choose|i: int| 0 <= i < args.len() && is_all_flag((#[trigger] args[i])@);
        assert(args[i]@ == "--all"@ || args[i]@ == "-a"@);
    }
    if exists|i: int|
        0 <= i < args.len() && ((#[trigger] args[i])@ == "--all"@ || args[i]@ == "-a"@) {
        let i = choose|i: int|
            0 <= i < args.len() && ((#[trigger] args[i])@ == "--all"@ || args[i]@ == "-a"@);
        assert(is_all_flag(args[i]@));
    }
    k
}

/// Arguments of which exactly one is neither `--all` nor `-a`, and does not start with a hyphen,
/// are always taken as a run over that directory.
pub proof fn one_directory_is_run(args: Seq<String>, r: Invocation, k: int)
    requires
        is_invocation(args, r),
        0 <= k < args.len(),
        args[k]@.len() == 0 || args[k]@[0] != '-',
        forall|i: int|
            0 <= i < args.len() && i != k ==> (#[trigger] args[i])@ == "--all"@ || args[i]@
                == "-a"@,
    ensures
        r matches Invocation::Run { root, .. } && root@ == args[k]@,
{
    flags_start_with_a_hyphen();
    assert(is_operand(args[k]@));
    assert forall|i: int| 0 <= i < args.len() implies !#[trigger] is_fault(args, i) by {
        assert(args[i]@ == args[i]@);
        if has_operand(args, i) {
            let j = choose|j: int| 0 <= j < i && is_operand((#[trigger] args[j])@);
            assert(j == k);
        }
    }
    match r {
        Invocation::Run { root, .. } => {
            let j = choose|j: int| #[trigger] is_first_operand(args, j) && root@ == args[j]@;
            assert(is_operand(args[j]@));
            assert(j == k);
        },
        Invocation::Usage => {
            assert(has_operand(args, args.len() as int));
        },
        Invocation::UnknownOption(arg) => {
            let j = choose|j: int| #[trigger] is_first_fault(args, j) && is_unknown_option(
                args[j]@,
            ) && arg@ == args[j]@;
            assert(is_fault(args, j));
        },
        Invocation::ExtraArgument => {
            let j = choose|j: int| #[trigger] is_first_fault(args, j) && is_operand(args[j]@);
            assert(is_fault(args, j));
        },
    }
}

/// The usage is shown if and only if every argument is `--all` or `-a`.
pub proof fn usage_is_shown_without_a_directory(args: Seq<String>, r: Invocation)
    requires
        is_invocation(args, r),
    ensures
        r is Usage <==> forall|i: int|
            0 <= i < args.len() ==> (#[trigger] args[i])@ == "--all"@ || args[i]@ == "-a"@,
{
    flags_start_with_a_hyphen();
    let all = forall|i: int|
        0 <= i < args.len() ==> (#[trigger] args[i])@ == "--all"@ || args[i]@ == "-a"@;
    if r is Usage {
        assert forall|i: int| 0 <= i < args.len() implies (#[trigger] args[i])@ == "--all"@
            || args[i]@ == "-a"@ by {
            assert(!is_fault(args, i));
        }
    } else {
        match r {
            Invocation::Run { root, .. } => {
                let j = choose|j: int| #[trigger] is_first_operand(args, j) && root@ == args[j]@;
                assert(is_operand(args[j]@));
            },
            Invocation::UnknownOption(arg) => {
                let j = choose|j: int| #[trigger] is_first_fault(args, j) && is_unknown_option(
                    args[j]@,
                ) && arg@ == args[j]@;
                assert(is_unknown_option(args[j]@));
            },
            Invocation::ExtraArgument => {
                let j = choose|j: int| #[trigger] is_first_fault(args, j) && is_operand(args[j]@);
                assert(is_operand(args[j]@));
            },
            _ => {},
        }
    }
}

/// An option that is refused is one of the arguments: it starts with a hyphen, and is neither
/// `--all` nor `-a`. No such option stands before it, and at most one directory.
pub proof fn refused_option_is_the_first_unknown_one(args: Seq<String>, option: String) -> (k: int)
    requires
        is_invocation(args, Invocation::UnknownOption(option)),
    ensures
        0 <= k < args.len(),
        option@ == args[k]@,
        option@.len() > 0 && option@[0] == '-',
        option@ != "--all"@ && option@ != "-a"@,
        forall|i: int|
            0 <= i < k ==> (#[trigger] args[i])@.len() == 0 || args[i]@[0] != '-' || args[i]@
                == "--all"@ || args[i]@ == "-a"@,
        forall|i: int, j: int|
            0 <= i < j < k ==> (#[trigger] args[i])@ == "--all"@ || args[i]@ == "-a"@ || (
            #[trigger] args[j])@ == "--all"@ || args[j]@ == "-a"@,
{
    let k = choose|k: int| #[trigger] is_first_fault(args, k) && is_unknown_option(args[k]@)
        && option@ == args[k]@;
    earlier_arguments_are_taken(args, k);
    k
}

/// An argument is refused as one too many where it is the second that is no option, and no
/// unknown option stands before it.
pub proof fn extra_argument_is_the_second_directory(args: Seq<String>) -> (r: (int, int))
    requires
        is_invocation(args, Invocation::ExtraArgument),
    ensures
        0 <= r.0 < r.1 < args.len(),
        args[r.0]@.len() == 0 || args[r.0]@[0] != '-',
        args[r.1]@.len() == 0 || args[r.1]@[0] != '-',
        forall|i: int|
            0 <= i < r.1 && i != r.0 ==> (#[trigger] args[i])@ == "--all"@ || args[i]@ == "-a"@,
{
    flags_start_with_a_hyphen();
    let k = choose|k: int| #[trigger] is_first_fault(args, k) && is_operand(args[k]@);
    assert(is_fault(args, k));
    let j = choose|j: int| 0 <= j < k && is_operand((#[trigger] args[j])@);
    earlier_arguments_are_taken(args, k);
    assert forall|i: int| 0 <= i < k && i != j implies (#[trigger] args[i])@ == "--all"@
        || args[i]@ == "-a"@ by {
        assert(args[j]@ == args[j]@);
    }
    (j, k)
}

/// Before the first argument that cannot be taken there are the two flags and at most one
/// directory.
proof fn earlier_arguments_are_taken(args: Seq<String>, k: int)
    requires
        is_first_fault(args, k),
    ensures
        forall|i: int|
            0 <= i < k ==> (#[trigger] args[i])@.len() == 0 || args[i]@[0] != '-' || args[i]@
                == "--all"@ || args[i]@ == "-a"@,
        forall|i: int, j: int|
            0 <= i < j < k ==> (#[trigger] args[i])@ == "--all"@ || args[i]@ == "-a"@ || (
            #[trigger] args[j])@ == "--all"@ || args[j]@ == "-a"@,
{
    assert forall|i: int| 0 <= i < k implies (#[trigger] args[i])@.len() == 0 || args[i]@[0] != '-'
        || args[i]@ == "--all"@ || args[i]@ == "-a"@ by {
        assert(!is_fault(args, i));
    }
    assert forall|i: int, j: int| 0 <= i < j < k implies (#[trigger] args[i])@ == "--all"@
        || args[i]@ == "-a"@ || (#[trigger] args[j])@ == "--all"@ || args[j]@ == "-a"@ by {
        assert(!is_fault(args, i));
        assert(!is_fault(args, j));
        if is_operand(args[i]@) {
            assert(has_operand(args, j));
        }
    }
}

/// Whether two invocations ask for the same.
pub open spec fn is_same_invocation(first: Invocation, second: Invocation) -> bool {
    match first {
        Invocation::Run { root, process_all } => second matches Invocation::Run {
            root: other,
            process_all: all,
        } && root@ == other@ && process_all == all,
        Invocation::Usage => second is Usage,
        Invocation::UnknownOption(arg) => second matches Invocation::UnknownOption(other) && arg@
            == other@,
        Invocation::ExtraArgument => second is ExtraArgument,
    }
}

/// The two spellings of the flag stand for each other, at whatever position: arguments that
/// differ only in them ask for the same. So do equal arguments.
pub proof fn spellings_of_the_flag_are_interchangeable(
    first: Seq<String>,
    second: Seq<String>,
    one: Invocation,
    two: Invocation,
)
    requires
        first.len() == second.len(),
        forall|i: int|
            0 <= i < first.len() ==> (#[trigger] first[i])@ == (#[trigger] second[i])@ || ((
            first[i]@ == "--all"@ || first[i]@ == "-a"@) && (second[i]@ == "--all"@ || second[i]@
                == "-a"@)),
        is_invocation(first, one),
        is_invocation(second, two),
    ensures
        is_same_invocation(one, two),
{
    flags_start_with_a_hyphen();
    assert forall|i: int| 0 <= i < first.len() implies is_all_flag((#[trigger] first[i])@)
        == is_all_flag(second[i]@) && is_unknown_option(first[i]@) == is_unknown_option(second[i]@)
        && is_operand(first[i]@) == is_operand(second[i]@) by {
        assert(first[i]@ == second[i]@ || (is_all_flag(first[i]@) && is_all_flag(second[i]@)));
    }
    assert forall|n: int| 0 <= n <= first.len() implies has_operand(first, n) == #[trigger]
        has_operand(second, n) by {
        if has_operand(first, n) {
            let i = choose|i: int| 0 <= i < n && is_operand((#[trigger] first[i])@);
            assert(is_operand(second[i]@));
        }
        if has_operand(second, n) {
            let i = choose|i: int| 0 <= i < n && is_operand((#[trigger] second[i])@);
            assert(is_operand(first[i]@));
        }
    }
    assert forall|i: int| 0 <= i < first.len() implies #[trigger] is_fault(first, i) == is_fault(
        second,
        i,
    ) by {
        assert(is_operand(first[i]@) == is_operand(second[i]@));
        assert(has_operand(first, i) == has_operand(second, i));
    }
    let n = first.len() as int;
    if has_all_flag(first, n) {
        let i = choose|i: int| 0 <= i < n && is_all_flag((#[trigger] first[i])@);
        assert(is_all_flag(second[i]@));
    }
    if has_all_flag(second, n) {
        let i = choose|i: int| 0 <= i < n && is_all_flag((#[trigger] second[i])@);
        assert(is_all_flag(first[i]@));
    }
    assert forall|i: int| is_first_fault(first, i) == #[trigger] is_first_fault(second, i) by {
        if is_first_fault(first, i) {
            assert(is_fault(second, i));
            assert forall|j: int| 0 <= j < i implies !#[trigger] is_fault(second, j) by {
                assert(!is_fault(first, j));
            }
        }
        if is_first_fault(second, i) {
            assert(is_fault(first, i));
            assert forall|j: int| 0 <= j < i implies !#[trigger] is_fault(first, j) by {
                assert(!is_fault(second, j));
            }
        }
    }
    assert forall|i: int| is_first_operand(first, i) == #[trigger] is_first_operand(second, i) by {
        if is_first_operand(first, i) {
            assert(is_operand(second[i]@));
            assert forall|j: int| 0 <= j < i implies !is_operand((#[trigger] second[j])@) by {
                assert(!is_operand(first[j]@));
            }
        }
        if is_first_operand(second, i) {
            assert(is_operand(first[i]@));
            assert forall|j: int| 0 <= j < i implies !is_operand((#[trigger] first[j])@) by {
                assert(!is_operand(second[j]@));
            }
        }
    }
    outcome_is_one_of_two(first, one);
    outcome_is_one_of_two(second, two);
    assert(is_faultless(first, n) == is_faultless(second, n)) by {
        if is_faultless(first, n) {
            assert forall|j: int| 0 <= j < n implies !#[trigger] is_fault(second, j) by {
                assert(!is_fault(first, j));
            }
        }
        if is_faultless(second, n) {
            assert forall|j: int| 0 <= j < n implies !#[trigger] is_fault(first, j) by {
                assert(!is_fault(second, j));
            }
        }
    }
    if is_faultless(first, n) {
        if has_operand(first, n) {
            let i = choose|i: int| is_first_operand(first, i) && one->root@ == first[i]@;
            let j = choose|j: int| is_first_operand(second, j) && two->root@ == second[j]@;
            first_operand_is_unique(first, i, j);
            assert(first[i]@ == second[i]@);
        }
    } else {
        let i = choose|i: int| is_first_fault(first, i);
        let j = choose|j: int| is_first_fault(second, j);
        assert(is_fault(first, i) && is_fault(second, j));
        if i < j {
            assert(!is_fault(second, i));
        }
        if j < i {
            assert(!is_fault(second, j));
        }
        first_fault_is_unique(first, i);
        first_fault_is_unique(second, i);
        assert(first[i]@ == second[i]@ || is_all_flag(first[i]@));
    }
}

/// There is but one first argument that is no option.
proof fn first_operand_is_unique(args: Seq<String>, i: int, j: int)
    requires
        is_first_operand(args, i),
        is_first_operand(args, j),
    ensures
        i == j,
{
    if i < j {
        assert(!is_operand(args[i]@));
    }
    if j < i {
        assert(!is_operand(args[j]@));
    }
}

/// There is but one first argument that cannot be taken.
proof fn first_fault_is_unique(args: Seq<String>, i: int)
    requires
        is_first_fault(args, i),
    ensures
        forall|j: int| #[trigger] is_first_fault(args, j) ==> j == i,
{
    assert forall|j: int| #[trigger] is_first_fault(args, j) implies j == i by {
        assert(is_fault(args, i) && is_fault(args, j));
    }
}

/// Arguments that can all be taken lead to a run or to the usage; else there is a first one that
/// cannot be.
proof fn outcome_is_one_of_two(args: Seq<String>, r: Invocation)
    requires
        is_invocation(args, r),
    ensures
        is_faultless(args, args.len() as int) <==> r is Run || r is Usage,
        r is Run ==> has_operand(args, args.len() as int),
        r is UnknownOption || r is ExtraArgument ==> exists|i: int| is_first_fault(args, i),
{
    match r {
        Invocation::Run { root, .. } => {
            let j = choose|j: int| #[trigger] is_first_operand(args, j) && root@ == args[j]@;
            assert(is_operand(args[j]@));
        },
        Invocation::UnknownOption(arg) => {
            let j = choose|j: int| #[trigger] is_first_fault(args, j) && is_unknown_option(
                args[j]@,
            ) && arg@ == args[j]@;
            assert(is_fault(args, j));
        },
        Invocation::ExtraArgument => {
            let j = choose|j: int| #[trigger] is_first_fault(args, j) && is_operand(args[j]@);
            assert(is_fault(args, j));
        },
        _ => {},
    }
}

} // verus!
