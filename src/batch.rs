//! Running a directory of histories: where each result goes, and which
//! histories still have to run.
use vstd::prelude::*;
use vstd::string::StrSliceExecFns;

verus! {

/// The decimal digit `d`.
pub open spec fn digit_char(d: nat) -> char {
    if d == 0 {
        '0'
    } else if d == 1 {
        '1'
    } else if d == 2 {
        '2'
    } else if d == 3 {
        '3'
    } else if d == 4 {
        '4'
    } else if d == 5 {
        '5'
    } else if d == 6 {
        '6'
    } else if d == 7 {
        '7'
    } else if d == 8 {
        '8'
    } else {
        '9'
    }
}

/// `n` in decimal, without leading zeros.
pub open spec fn decimal(n: nat) -> Seq<char>
    decreases n,
{
    if n < 10 {
        seq![digit_char(n)]
    } else {
        decimal(n / 10) + seq![digit_char(n % 10)]
    }
}

/// `s` with zeros in front, up to `width` characters.
pub open spec fn zero_padded(s: Seq<char>, width: nat) -> Seq<char> {
    Seq::new((if s.len() < width { width - s.len() } else { 0 }) as nat, |i: int| '0') + s
}

/// The name of the output directory of the history with this id: `hist-`
/// and the id in five digits at least.
pub open spec fn dir_name(id: nat) -> Seq<char> {
    "hist-"@ + zero_padded(decimal(id), 5)
}

/// The digits of `ds`, most significant last, as text.
pub open spec fn digits_text(ds: Seq<usize>) -> Seq<char> {
    Seq::new(ds.len(), |i: int| digit_char(ds[ds.len() - 1 - i] as nat))
}

fn digit_str(d: usize) -> (r: &'static str)
    requires
        d < 10,
    ensures
        r@ == seq![digit_char(d as nat)],
{
    proof {
        reveal_strlit("0");
        reveal_strlit("1");
        reveal_strlit("2");
        reveal_strlit("3");
        reveal_strlit("4");
        reveal_strlit("5");
        reveal_strlit("6");
        reveal_strlit("7");
        reveal_strlit("8");
        reveal_strlit("9");
    }
    match d {
        0 => "0",
        1 => "1",
        2 => "2",
        3 => "3",
        4 => "4",
        5 => "5",
        6 => "6",
        7 => "7",
        8 => "8",
        _ => "9",
    }
}

/// The output directory name of the history with id `id`.
pub fn history_dir_name(id: usize) -> (r: String)
    ensures
        r@ == dir_name(id as nat),
{
    // The digits of `id`, least significant first.
    let mut digits: Vec<usize> = Vec::new();
    let mut m: usize = id;
    while m >= 10
        invariant
            decimal(id as nat) == decimal(m as nat) + digits_text(digits@),
            forall|k: int| 0 <= k < digits@.len() ==> #[trigger] digits@[k] < 10,
        decreases m,
    {
        let ghost old_digits = digits@;
        digits.push(m % 10);
        assert(digits_text(digits@) =~= seq![digit_char((m % 10) as nat)] + digits_text(old_digits));
        assert(decimal(m as nat) == decimal((m / 10) as nat) + seq![digit_char((m % 10) as nat)]);
        m = m / 10;
    }
    let ghost old_digits = digits@;
    digits.push(m);
    assert(digits_text(digits@) =~= seq![digit_char(m as nat)] + digits_text(old_digits));
    assert(decimal(id as nat) =~= digits_text(digits@));
    let mut name = String::from_str("hist-");
    proof {
        reveal_strlit("hist-");
    }
    let mut width: usize = digits.len();
    while width < 5
        invariant
            digits@.len() <= width,
            width <= 5 || width == digits@.len(),
            name@ == "hist-"@ + Seq::new((width - digits@.len()) as nat, |i: int| '0'),
        decreases 5 - width,
    {
        name.append("0");
        proof {
            reveal_strlit("0");
        }
        assert(name@ =~= "hist-"@ + Seq::new((width + 1 - digits@.len()) as nat, |i: int| '0'));
        width = width + 1;
    }
    let ghost pad = name@;
    let mut i: usize = digits.len();
    while i > 0
        invariant
            i <= digits@.len(),
            forall|k: int| 0 <= k < digits@.len() ==> #[trigger] digits@[k] < 10,
            name@ == pad + digits_text(digits@).subrange(0, digits@.len() - i),
        decreases i,
    {
        name.append(digit_str(digits[i - 1]));
        assert(name@ =~= pad + digits_text(digits@).subrange(0, digits@.len() - (i - 1)));
        i = i - 1;
    }
    assert(digits_text(digits@).subrange(0, digits@.len() as int) =~= digits_text(digits@));
    assert(pad =~= "hist-"@ + Seq::new(
        (if decimal(id as nat).len() < 5 { 5 - decimal(id as nat).len() } else { 0 }) as nat,
        |i: int| '0',
    ));
    name
}

/// The history at position `i` of a batch runs: no output directory holds
/// its id yet, neither one that was there before the batch nor one that an
/// earlier history of the batch made.
pub open spec fn runnable(ids: Seq<usize>, occupied: Seq<usize>, i: int) -> bool {
    &&& !occupied.contains(ids[i])
    &&& !ids.subrange(0, i).contains(ids[i])
}

/// Whether `x` is among the first `end` items of `v`.
fn contains_before(v: &Vec<usize>, end: usize, x: usize) -> (r: bool)
    requires
        end <= v@.len(),
    ensures
        r == v@.subrange(0, end as int).contains(x),
{
    let mut k: usize = 0;
    while k < end
        invariant
            end <= v@.len(),
            k <= end,
            !v@.subrange(0, k as int).contains(x),
        decreases end - k,
    {
        if v[k] == x {
            assert(v@.subrange(0, end as int)[k as int] == x);
            return true;
        }
        assert(v@.subrange(0, k + 1) =~= v@.subrange(0, k as int).push(v@[k as int]));
        k = k + 1;
    }
    false
}

/// The positions, in increasing order, of the histories of a batch that
/// run, where `ids` are the ids of the batch's histories in the order they
/// are taken and `occupied` the ids whose output directory exists already.
pub fn pending(ids: &Vec<usize>, occupied: &Vec<usize>) -> (r: Vec<usize>)
    ensures
        forall|j: int| 0 <= j < r@.len() ==> #[trigger] r@[j] < ids@.len(),
        forall|j1: int, j2: int| 0 <= j1 < j2 < r@.len() ==> #[trigger] r@[j1] < #[trigger] r@[j2],
        forall|i: int| 0 <= i < ids@.len() ==> (runnable(ids@, occupied@, i) <==> r@.contains(i as usize)),
{
    let mut run: Vec<usize> = Vec::new();
    let mut i: usize = 0;
    while i < ids.len()
        invariant
            i <= ids@.len(),
            forall|j: int| 0 <= j < run@.len() ==> #[trigger] run@[j] < i,
            forall|j1: int, j2: int| 0 <= j1 < j2 < run@.len() ==> #[trigger] run@[j1] < #[trigger] run@[j2],
            forall|p: int| 0 <= p < i ==> (runnable(ids@, occupied@, p) <==> run@.contains(p as usize)),
        decreases ids@.len() - i,
    {
        let id = ids[i];
        let taken = contains_before(occupied, occupied.len(), id) || contains_before(ids, i, id);
        assert(occupied@.subrange(0, occupied@.len() as int) =~= occupied@);
        let ghost before = run@;
        if !taken {
            run.push(i);
        }
        assert forall|p: int| 0 <= p < i + 1 implies (runnable(ids@, occupied@, p) <==> run@.contains(
            p as usize,
        )) by {
            if p < i {
                if before.contains(p as usize) {
                    let j = choose|j: int| 0 <= j < before.len() && before[j] == p as usize;
                    assert(run@[j] == p as usize);
                }
                if run@.contains(p as usize) {
                    let j = choose|j: int| 0 <= j < run@.len() && run@[j] == p as usize;
                    assert(j < before.len());
                    assert(before[j] == p as usize);
                }
            } else if !taken {
                assert(run@[before.len() as int] == i);
            } else {
                if run@.contains(p as usize) {
                    let j = choose|j: int| 0 <= j < run@.len() && run@[j] == p as usize;
                    assert(before[j] < i);
                }
            }
        }
        i = i + 1;
    }
    run
}

/// After a run of the batch, the history at position `i` has its output
/// directory: one that was there before, or one that the first history of
/// the batch with the same id made when it ran.
pub open spec fn has_output(ids: Seq<usize>, occupied: Seq<usize>, i: int) -> bool {
    ||| occupied.contains(ids[i])
    ||| exists|p: int| 0 <= p <= i && runnable(ids, occupied, p) && ids[p] == ids[i]
}

/// Some earlier or equal position holds the first occurrence of `ids[i]`.
proof fn lemma_first_occurrence(ids: Seq<usize>, i: int)
    requires
        0 <= i < ids.len(),
    ensures
        exists|j: int| 0 <= j <= i && ids[j] == ids[i] && !#[trigger] ids.subrange(0, j).contains(ids[i]),
    decreases i,
{
    if ids.subrange(0, i).contains(ids[i]) {
        let k = choose|k: int| 0 <= k < i && ids.subrange(0, i)[k] == ids[i];
        assert(ids[k] == ids[i]);
        lemma_first_occurrence(ids, k);
        let j = choose|j: int| 0 <= j <= k && ids[j] == ids[k] && !#[trigger] ids.subrange(0, j).contains(ids[k]);
        assert(0 <= j <= i && ids[j] == ids[i] && !ids.subrange(0, j).contains(ids[i]));
    } else {
        assert(0 <= i <= i && ids[i] == ids[i] && !ids.subrange(0, i).contains(ids[i]));
    }
}

/// Running a batch is resumable. A first run leaves an output directory for
/// every history of the batch: each id that had none gets one from a history
/// that runs. So a second run over the same batch, against the directories
/// the first one left (`after`: those there before and those made), runs
/// nothing again.
pub proof fn lemma_batch_idempotent(ids: Seq<usize>, occupied: Seq<usize>, after: Seq<usize>)
    requires
        forall|x: usize| #[trigger] after.contains(x) <==> occupied.contains(x) || exists|p: int|
            0 <= p < ids.len() && runnable(ids, occupied, p) && #[trigger] ids[p] == x,
    ensures
        forall|i: int| 0 <= i < ids.len() ==> #[trigger] has_output(ids, occupied, i),
        forall|i: int| 0 <= i < ids.len() ==> !#[trigger] runnable(ids, after, i),
{
    assert forall|i: int| 0 <= i < ids.len() implies #[trigger] has_output(ids, occupied, i) by {
        if !occupied.contains(ids[i]) {
            lemma_first_occurrence(ids, i);
            let j = choose|j: int| 0 <= j <= i && ids[j] == ids[i] && !#[trigger] ids.subrange(0, j).contains(ids[i]);
            assert(runnable(ids, occupied, j));
        }
    }
    assert forall|i: int| 0 <= i < ids.len() implies !#[trigger] runnable(ids, after, i) by {
        if !occupied.contains(ids[i]) {
            lemma_first_occurrence(ids, i);
            let j = choose|j: int| 0 <= j <= i && ids[j] == ids[i] && !#[trigger] ids.subrange(0, j).contains(ids[i]);
            assert(runnable(ids, occupied, j));
        }
        assert(after.contains(ids[i]));
    }
}

} // verus!
