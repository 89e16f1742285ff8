//! Processor sets as text and as bitmaps: how control groups and unit properties write them.

use vstd::prelude::*;

use crate::mask;
use crate::service::ServiceError;
use crate::text;

verus! {

/// The last of the members of `mask` that follow `from` without a gap.
pub open spec fn run_end(mask: usize, from: int) -> int
    decreases usize::BITS - from,
{
    if from + 1 < usize::BITS && mask::has_cpu(mask, from + 1) {
        run_end(mask, from + 1)
    } else {
        from
    }
}

/// The gapless runs of members of `mask` from `from` on.
pub open spec fn runs(mask: usize, from: int) -> Seq<(int, int)>
    decreases usize::BITS - from,
{
    if from >= usize::BITS {
        Seq::empty()
    } else if !mask::has_cpu(mask, from) {
        runs(mask, from + 1)
    } else {
        let end = run_end(mask, from);
        if from <= end < usize::BITS {
            seq![(from, end)] + runs(mask, end + 1)
        } else {
            Seq::empty()
        }
    }
}

/// One run: a number, or two joined by `-`.
pub open spec fn run_text(run: (int, int)) -> Seq<char> {
    if run.0 == run.1 {
        text::decimal(run.0 as nat)
    } else {
        text::decimal(run.0 as nat) + seq!['-'] + text::decimal(run.1 as nat)
    }
}

pub open spec fn run_texts(found: Seq<(int, int)>) -> Seq<Seq<char>> {
    found.map_values(|run: (int, int)| run_text(run))
}

/// The members of `mask` as runs, joined by commas.
pub open spec fn cpuset_text(mask: usize) -> Seq<char> {
    text::joined(run_texts(runs(mask, 0)), ',')
}

proof fn lemma_run_end(mask: usize, from: int)
    requires
        0 <= from < usize::BITS,
        mask::has_cpu(mask, from),
    ensures
        from <= run_end(mask, from) < usize::BITS,
        forall|cpu: int| from <= cpu <= run_end(mask, from) ==> #[trigger] mask::has_cpu(mask, cpu),
        !mask::has_cpu(mask, run_end(mask, from) + 1),
    decreases usize::BITS - from,
{
    if from + 1 < usize::BITS && mask::has_cpu(mask, from + 1) {
        lemma_run_end(mask, from + 1);
    }
}

/// A processor is a member exactly when one of the runs holds it.
pub proof fn lemma_runs(mask: usize, from: int)
    requires
        0 <= from <= usize::BITS,
    ensures
        forall|i: int|
            0 <= i < runs(mask, from).len() ==> from <= (#[trigger] runs(mask, from)[i]).0 <= runs(
                mask,
                from,
            )[i].1 < usize::BITS,
        forall|cpu: int|
            from <= cpu < usize::BITS ==> (#[trigger] mask::has_cpu(mask, cpu) <==> in_runs(
                runs(mask, from),
                cpu,
            )),
        forall|cpu: int| cpu < from ==> !#[trigger] in_runs(runs(mask, from), cpu),
    decreases usize::BITS - from,
{
    let all = runs(mask, from);
    if from >= usize::BITS {
    } else if !mask::has_cpu(mask, from) {
        lemma_runs(mask, from + 1);
        assert(!in_runs(all, from));
    } else {
        lemma_run_end(mask, from);
        let end = run_end(mask, from);
        lemma_runs(mask, end + 1);
        let rest = runs(mask, end + 1);
        assert(all =~= seq![(from, end)] + rest);
        assert forall|i: int| 0 <= i < all.len() implies from <= (#[trigger] all[i]).0 <= all[i].1
            < usize::BITS by {
            if i > 0 {
                assert(all[i] == rest[i - 1]);
            }
        }
        assert forall|cpu: int| #[trigger] in_runs(all, cpu) <==> from <= cpu <= end || in_runs(
            rest,
            cpu,
        ) by {
            if in_runs(all, cpu) {
                let i = choose|i: int| 0 <= i < all.len() && (#[trigger] all[i]).0 <= cpu <= all[i].1;
                if i > 0 {
                    assert(rest[i - 1] == all[i]);
                }
            }
            if from <= cpu <= end {
                assert(all[0].0 <= cpu <= all[0].1);
            }
            if in_runs(rest, cpu) {
                let i = choose|i: int|
                    0 <= i < rest.len() && (#[trigger] rest[i]).0 <= cpu <= rest[i].1;
                assert(all[i + 1] == rest[i]);
            }
        }
        assert forall|cpu: int| from <= cpu < usize::BITS implies (#[trigger] mask::has_cpu(
            mask,
            cpu,
        ) <==> in_runs(all, cpu)) by {
            assert(in_runs(all, cpu) <==> from <= cpu <= end || in_runs(rest, cpu));
            if cpu <= end {
                assert(mask::has_cpu(mask, cpu));
            } else {
                assert(mask::has_cpu(mask, cpu) <==> in_runs(rest, cpu));
            }
        }
        assert forall|cpu: int| cpu < from implies !#[trigger] in_runs(all, cpu) by {
            assert(!in_runs(rest, cpu));
        }
    }
}

/// One of the runs holds `cpu`.
pub open spec fn in_runs(found: Seq<(int, int)>, cpu: int) -> bool {
    exists|i: int| 0 <= i < found.len() && (#[trigger] found[i]).0 <= cpu <= found[i].1
}

/// The members of `mask` as text, such as `0-3,8`.
pub fn cpuset_string(mask: usize) -> (cpuset: String)
    ensures
        cpuset@ == cpuset_text(mask),
{
    let mut cpuset = String::new();
    let ghost mut written: Seq<(int, int)> = Seq::empty();
    let mut index: usize = 0;
    let mut first: bool = true;
    assert(written + runs(mask, 0) =~= runs(mask, 0));
    assert(run_texts(written) =~= Seq::empty());
    while index < usize::BITS as usize
        invariant
            index <= usize::BITS,
            first == (written.len() == 0),
            written + runs(mask, index as int) == runs(mask, 0),
            cpuset@ == text::joined(run_texts(written), ','),
        decreases usize::BITS - index,
    {
        if !mask::contains_cpu(mask, index) {
            index = index + 1;
            continue ;
        }
        let start = index;
        proof {
            lemma_run_end(mask, start as int);
        }
        let mut end = index;
        while end + 1 < usize::BITS as usize && mask::contains_cpu(mask, end + 1)
            invariant
                start <= end < usize::BITS,
                run_end(mask, start as int) == run_end(mask, end as int),
            decreases usize::BITS - end,
        {
            end = end + 1;
        }
        assert(run_end(mask, start as int) == end);
        let ghost before = run_texts(written);
        if !first {
            cpuset.push(',');
        }
        first = false;
        text::append(&mut cpuset, text::decimal_text(start as u64).as_str());
        if start != end {
            cpuset.push('-');
            text::append(&mut cpuset, text::decimal_text(end as u64).as_str());
        }
        proof {
            let run = (start as int, end as int);
            let rest = runs(mask, end + 1);
            assert(runs(mask, start as int) == seq![run] + rest);
            assert(written + (seq![run] + rest) =~= written.push(run) + rest);
            assert(run_texts(written.push(run)) =~= before.push(run_text(run)));
            assert(before.push(run_text(run)).drop_last() =~= before);
            assert(cpuset@ =~= text::joined(run_texts(written.push(run)), ','));
            written = written.push(run);
        }
        index = end + 1;
    }
    assert(written + runs(mask, index as int) =~= written);
    cpuset
}

/// What one term of a processor set says.
pub enum Term {
    Nothing,
    Range(nat, nat),
    Refused(Seq<char>),
}

/// The processor number that a part of a term writes, or the words that refuse it.
pub open spec fn index_of(part: Seq<char>) -> Result<nat, Seq<char>> {
    match text::unsigned(text::trim(part)) {
        Some(value) => if value <= usize::MAX {
            Ok(value)
        } else {
            Err(refused_index(part))
        },
        None => Err(refused_index(part)),
    }
}

pub open spec fn refused_index(part: Seq<char>) -> Seq<char> {
    "invalid CPU index "@ + text::debug_quoted(part) + ": "@ + text::parse_usize_error(
        text::trim(part),
    )
}

/// The first processor of a range that no mask can hold.
pub open spec fn first_unfit(start: nat) -> nat {
    if start >= usize::BITS {
        start
    } else {
        usize::BITS as nat
    }
}

/// `at` is the first position of `-` in `term`.
pub open spec fn is_dash(term: Seq<char>, at: int) -> bool {
    0 <= at < term.len() && term[at] == '-' && forall|j: int| 0 <= j < at ==> term[j] != '-'
}

/// What a term with the bounds `start` and `end` says.
pub open spec fn bounded_term(
    term: Seq<char>,
    start: Result<nat, Seq<char>>,
    end: Result<nat, Seq<char>>,
) -> Term {
    match (start, end) {
        (Err(words), _) => Term::Refused(words),
        (_, Err(words)) => Term::Refused(words),
        (Ok(first), Ok(last)) => if first > last {
            Term::Refused(
                "cpuset range "@ + text::debug_quoted(term) + " has descending bounds"@,
            )
        } else if last >= usize::BITS {
            Term::Refused(
                "logical processor index "@ + text::decimal(first_unfit(first))
                    + " cannot fit in affinity mask"@,
            )
        } else {
            Term::Range(first, last)
        },
    }
}

/// What one trimmed term says.
pub open spec fn meaning(term: Seq<char>) -> Term {
    if term.len() == 0 {
        Term::Nothing
    } else if term.contains('-') {
        let at = choose|at: int| is_dash(term, at);
        bounded_term(
            term,
            index_of(term.subrange(0, at)),
            index_of(term.subrange(at + 1, term.len() as int)),
        )
    } else {
        bounded_term(term, index_of(term), index_of(term))
    }
}

/// The terms of a processor set, each trimmed.
pub open spec fn terms(cpuset: Seq<char>) -> Seq<Seq<char>> {
    text::split(cpuset, ',').map_values(|piece: Seq<char>| text::trim(piece))
}

/// The term names the processor.
pub open spec fn term_names(term: Seq<char>, cpu: int) -> bool {
    match meaning(term) {
        Term::Range(first, last) => first <= cpu <= last,
        _ => false,
    }
}

/// One of the terms names the processor.
pub open spec fn names_cpu(cpuset: Seq<char>, cpu: int) -> bool {
    exists|i: int| 0 <= i < terms(cpuset).len() && term_names(#[trigger] terms(cpuset)[i], cpu)
}

/// No term of the processor set is refused.
pub open spec fn is_cpuset(cpuset: Seq<char>) -> bool {
    forall|i: int|
        0 <= i < terms(cpuset).len() ==> !(meaning(#[trigger] terms(cpuset)[i]) is Refused)
}

/// `k` is the first term that is refused.
pub open spec fn is_first_refused(cpuset: Seq<char>, k: int) -> bool {
    &&& 0 <= k < terms(cpuset).len()
    &&& meaning(terms(cpuset)[k]) is Refused
    &&& forall|j: int| 0 <= j < k ==> !(meaning(#[trigger] terms(cpuset)[j]) is Refused)
}

/// `words` refuse the processor set: its first refused term or, where all terms are fine, that
/// they name no processor.
pub open spec fn is_refusal(cpuset: Seq<char>, words: Seq<char>) -> bool {
    if is_cpuset(cpuset) {
        (forall|cpu: int| !#[trigger] names_cpu(cpuset, cpu)) && words == "cpuset mask was empty"@
    } else {
        exists|k: int| #[trigger]
            is_first_refused(cpuset, k) && meaning(terms(cpuset)[k]) == Term::Refused(words)
    }
}

fn affinity_error(expression: &str, message: String) -> (error: ServiceError)
    ensures
        error matches ServiceError::Affinity { expression: kept, message: words } && kept@
            == expression@ && words@ == message@,
{
    ServiceError::Affinity { expression: expression.to_owned(), message }
}

/// Reads one processor number of `expression`.
pub fn parse_cpu_index(value: &str, expression: &str) -> (index: Result<usize, ServiceError>)
    ensures
        match index {
            Ok(index) => index_of(value@) == Ok::<nat, Seq<char>>(index as nat),
            Err(error) => error matches ServiceError::Affinity { expression: kept, message }
                && kept@ == expression@ && index_of(value@) == Err::<nat, Seq<char>>(message@),
        },
{
    match text::parse_usize(text::trimmed(value).as_str()) {
        Ok(index) => Ok(index),
        Err(reason) => {
            let mut message = "invalid CPU index ".to_string();
            text::append(&mut message, text::quoted(value).as_str());
            text::append(&mut message, ": ");
            text::append(&mut message, reason.as_str());
            Err(affinity_error(expression, message))
        },
    }
}

fn find_dash(chars: &Vec<char>) -> (found: Option<usize>)
    ensures
        match found {
            Some(at) => is_dash(chars@, at as int),
            None => !chars@.contains('-'),
        },
{
    let mut i: usize = 0;
    while i < chars.len()
        invariant
            i <= chars@.len(),
            forall|j: int| 0 <= j < i ==> chars@[j] != '-',
        decreases chars@.len() - i,
    {
        if chars[i] == '-' {
            return Some(i);
        }
        i = i + 1;
    }
    None
}

proof fn lemma_dash(term: Seq<char>, at: int)
    requires
        is_dash(term, at),
    ensures
        term.contains('-'),
        (choose|other: int| is_dash(term, other)) == at,
{
    let other = choose|other: int| is_dash(term, other);
    assert(is_dash(term, other));
    if other < at {
        assert(term[other] != '-');
    }
    if at < other {
        assert(term[at] != '-');
    }
}

/// The bounds of one term, which is not empty.
fn parse_term(term: &str, expression: &str) -> (bounds: Result<(usize, usize), ServiceError>)
    requires
        term@.len() > 0,
    ensures
        match bounds {
            Ok((first, last)) => meaning(term@) == Term::Range(first as nat, last as nat),
            Err(error) => error matches ServiceError::Affinity { expression: kept, message }
                && kept@ == expression@ && meaning(term@) == Term::Refused(message@),
        },
{
    let chars = text::characters(term);
    let (first, last) = match find_dash(&chars) {
        Some(at) => {
            proof {
                lemma_dash(term@, at as int);
            }
            let start = text::text_between(&chars, 0, at);
            let end = text::text_between(&chars, at + 1, chars.len());
            let first = match parse_cpu_index(start.as_str(), expression) {
                Ok(first) => first,
                Err(error) => {
                    return Err(error);
                },
            };
            let last = match parse_cpu_index(end.as_str(), expression) {
                Ok(last) => last,
                Err(error) => {
                    return Err(error);
                },
            };
            (first, last)
        },
        None => {
            let index = match parse_cpu_index(term, expression) {
                Ok(index) => index,
                Err(error) => {
                    return Err(error);
                },
            };
            (index, index)
        },
    };
    if first > last {
        let mut message = "cpuset range ".to_string();
        text::append(&mut message, text::quoted(term).as_str());
        text::append(&mut message, " has descending bounds");
        return Err(affinity_error(expression, message));
    }
    if last >= usize::BITS as usize {
        let unfit = if first >= usize::BITS as usize {
            first
        } else {
            usize::BITS as usize
        };
        let mut message = "logical processor index ".to_string();
        text::append(&mut message, text::decimal_text(unfit as u64).as_str());
        text::append(&mut message, " cannot fit in affinity mask");
        return Err(affinity_error(expression, message));
    }
    Ok((first, last))
}

fn add_range(mask: usize, first: usize, last: usize) -> (widened: usize)
    requires
        first <= last < usize::BITS,
    ensures
        forall|cpu: int| #[trigger]
            mask::has_cpu(widened, cpu) <==> mask::has_cpu(mask, cpu) || first <= cpu <= last,
{
    let mut widened = mask;
    let mut next = first;
    while next <= last
        invariant
            first <= next <= last + 1,
            last < usize::BITS,
            forall|cpu: int| #[trigger]
                mask::has_cpu(widened, cpu) <==> mask::has_cpu(mask, cpu) || first <= cpu < next,
        decreases last + 1 - next,
    {
        let ghost before = widened;
        widened = mask::with_cpu(widened, next);
        assert forall|cpu: int| #[trigger]
            mask::has_cpu(widened, cpu) <==> mask::has_cpu(mask, cpu) || first <= cpu < next
                + 1 by {
            assert(mask::has_cpu(before, cpu) <==> mask::has_cpu(mask, cpu) || first <= cpu < next);
        }
        next = next + 1;
    }
    widened
}

/// Reads a processor set such as `0-3,8`.
pub fn parse_cpuset_mask(cpuset: &str) -> (parsed: Result<usize, ServiceError>)
    ensures
        match parsed {
            Ok(mask) => {
                &&& is_cpuset(cpuset@)
                &&& mask != 0
                &&& forall|cpu: int| #[trigger]
                    mask::has_cpu(mask, cpu) <==> names_cpu(cpuset@, cpu)
            },
            Err(error) => error matches ServiceError::Affinity { expression, message }
                && expression@ == cpuset@ && is_refusal(cpuset@, message@),
        },
{
    let ghost all = terms(cpuset@);
    let pieces = text::pieces(cpuset, ',');
    let mut mask: usize = 0;
    let mut i: usize = 0;
    assert forall|cpu: int| !#[trigger] mask::has_cpu(mask, cpu) by {
        mask::lemma_empty_mask(cpu);
    }
    while i < pieces.len()
        invariant
            i <= pieces@.len(),
            all == terms(cpuset@),
            text::views(pieces@) == text::split(cpuset@, ','),
            forall|j: int| 0 <= j < i ==> !(meaning(#[trigger] all[j]) is Refused),
            forall|cpu: int| #[trigger]
                mask::has_cpu(mask, cpu) <==> exists|j: int|
                    0 <= j < i && term_names(#[trigger] all[j], cpu),
        decreases pieces@.len() - i,
    {
        assert(text::views(pieces@)[i as int] == pieces@[i as int]@);
        let term = text::trimmed(pieces[i].as_str());
        assert(all[i as int] == term@);
        let ghost before = mask;
        if !term.as_str().is_empty() {
            match parse_term(term.as_str(), cpuset) {
                Ok((first, last)) => {
                    mask = add_range(mask, first, last);
                    assert forall|cpu: int| #[trigger]
                        mask::has_cpu(mask, cpu) <==> exists|j: int|
                            0 <= j < i + 1 && term_names(#[trigger] all[j], cpu) by {
                        assert(term_names(all[i as int], cpu) <==> first <= cpu <= last);
                        assert(mask::has_cpu(before, cpu) <==> exists|j: int|
                            0 <= j < i && term_names(#[trigger] all[j], cpu));
                    }
                },
                Err(error) => {
                    assert(is_first_refused(cpuset@, i as int));
                    return Err(error);
                },
            }
        } else {
            assert(forall|cpu: int| !#[trigger] term_names(all[i as int], cpu));
        }
        i = i + 1;
    }
    assert forall|cpu: int| #[trigger] mask::has_cpu(mask, cpu) <==> names_cpu(cpuset@, cpu) by {}
    if mask == 0 {
        proof {
            mask::lemma_zero_iff_no_cpu(mask);
            assert forall|cpu: int| !#[trigger] names_cpu(cpuset@, cpu) by {
                assert(!mask::has_cpu(mask, cpu));
            }
        }
        return Err(affinity_error(cpuset, "cpuset mask was empty".to_string()));
    }
    Ok(mask)
}

/// A character of a written processor set.
pub open spec fn is_cpuset_char(c: char) -> bool {
    text::is_digit(c) || c == '-' || c == ','
}

proof fn lemma_run_text(run: (int, int))
    requires
        0 <= run.0 <= run.1 < usize::BITS,
    ensures
        run_text(run).len() > 0,
        forall|i: int|
            0 <= i < run_text(run).len() ==> text::is_digit(#[trigger] run_text(run)[i])
                || run_text(run)[i] == '-',
        text::is_digit(run_text(run)[0]),
        text::is_digit(run_text(run).last()),
        meaning(run_text(run)) == Term::Range(run.0 as nat, run.1 as nat),
{
    let first = text::decimal(run.0 as nat);
    let last = text::decimal(run.1 as nat);
    text::lemma_decimal_round_trip(run.0 as nat);
    text::lemma_decimal_round_trip(run.1 as nat);
    text::lemma_trim_fixed(first);
    text::lemma_trim_fixed(last);
    assert(index_of(first) == Ok::<nat, Seq<char>>(run.0 as nat));
    assert(index_of(last) == Ok::<nat, Seq<char>>(run.1 as nat));
    let whole = run_text(run);
    if run.0 == run.1 {
        assert(!whole.contains('-'));
    } else {
        let at = first.len() as int;
        assert(whole[at] == '-');
        assert forall|j: int| 0 <= j < at implies whole[j] != '-' by {
            assert(whole[j] == first[j]);
        }
        assert(is_dash(whole, at));
        lemma_dash(whole, at);
        assert(whole.subrange(0, at) =~= first);
        assert(whole.subrange(at + 1, whole.len() as int) =~= last);
        assert(whole.last() == last.last());
        assert(whole[0] == first[0]);
        assert forall|i: int| 0 <= i < whole.len() implies text::is_digit(#[trigger] whole[i])
            || whole[i] == '-' by {
            if i < at {
                assert(whole[i] == first[i]);
            } else if i > at {
                assert(whole[i] == last[i - at - 1]);
            }
        }
    }
}

proof fn lemma_cpuset_terms(mask: usize)
    ensures
        mask != 0 ==> terms(cpuset_text(mask)) == run_texts(runs(mask, 0)),
        mask == 0 ==> terms(cpuset_text(mask)) == seq![Seq::<char>::empty()],
{
    let found = runs(mask, 0);
    let texts = run_texts(found);
    lemma_runs(mask, 0);
    mask::lemma_zero_iff_no_cpu(mask);
    if mask != 0 {
        if found.len() == 0 {
            assert forall|cpu: int| 0 <= cpu < usize::BITS implies !mask::has_cpu(mask, cpu) by {
                assert(!in_runs(found, cpu));
            }
            assert(false);
        }
        assert forall|i: int| 0 <= i < texts.len() implies !(#[trigger] texts[i]).contains(',') by {
            lemma_run_text(found[i]);
        }
        text::lemma_split_joined(texts, ',');
        assert forall|i: int| 0 <= i < texts.len() implies text::trim(#[trigger] texts[i])
            == texts[i] by {
            lemma_run_text(found[i]);
            text::lemma_trim_fixed(texts[i]);
        }
        assert(terms(cpuset_text(mask)) =~= texts);
    } else {
        if found.len() > 0 {
            assert(found[0].0 <= found[0].0 <= found[0].1);
            assert(in_runs(found, found[0].0));
            assert(mask::has_cpu(mask, found[0].0));
        }
        assert(texts.len() == 0);
        assert(terms(cpuset_text(mask)) =~= seq![text::trim(Seq::<char>::empty())]);
        text::lemma_trim_fixed(Seq::<char>::empty());
    }
}

/// Reading back what was written for a mask names the members of the mask and nothing else.
pub proof fn law_cpuset_text_reads_back(mask: usize)
    ensures
        is_cpuset(cpuset_text(mask)),
        forall|cpu: int| #[trigger]
            names_cpu(cpuset_text(mask), cpu) <==> mask::has_cpu(mask, cpu),
{
    let written = cpuset_text(mask);
    let found = runs(mask, 0);
    let all = terms(written);
    lemma_cpuset_terms(mask);
    lemma_runs(mask, 0);
    mask::lemma_zero_iff_no_cpu(mask);
    assert forall|i: int| 0 <= i < all.len() implies !(meaning(#[trigger] all[i]) is Refused) by {
        if mask != 0 {
            lemma_run_text(found[i]);
        }
    }
    assert forall|cpu: int| #[trigger] names_cpu(written, cpu) <==> mask::has_cpu(mask, cpu) by {
        if names_cpu(written, cpu) {
            let i = choose|i: int| 0 <= i < all.len() && term_names(#[trigger] all[i], cpu);
            if mask != 0 {
                lemma_run_text(found[i]);
                assert(found[i].0 <= cpu <= found[i].1);
                assert(in_runs(found, cpu));
            }
        }
        if mask::has_cpu(mask, cpu) {
            assert(0 <= cpu < usize::BITS && in_runs(found, cpu));
            let i = choose|i: int| 0 <= i < found.len() && (#[trigger] found[i]).0 <= cpu <= found[i].1;
            lemma_run_text(found[i]);
            assert(term_names(all[i], cpu));
        }
    }
}

proof fn lemma_cpuset_characters(texts: Seq<Seq<char>>)
    requires
        forall|i: int, j: int|
            0 <= i < texts.len() && 0 <= j < texts[i].len() ==> is_cpuset_char(
                #[trigger] texts[i][j],
            ),
    ensures
        forall|j: int|
            0 <= j < text::joined(texts, ',').len() ==> is_cpuset_char(
                #[trigger] text::joined(texts, ',')[j],
            ),
    decreases texts.len(),
{
    if texts.len() > 1 {
        let shorter = texts.drop_last();
        assert forall|i: int, j: int|
            0 <= i < shorter.len() && 0 <= j < shorter[i].len() implies is_cpuset_char(
            #[trigger] shorter[i][j],
        ) by {
            assert(texts[i][j] == shorter[i][j]);
        }
        lemma_cpuset_characters(shorter);
        let before = text::joined(shorter, ',');
        let whole = text::joined(texts, ',');
        let last = texts.len() - 1;
        assert forall|j: int| 0 <= j < whole.len() implies is_cpuset_char(#[trigger] whole[j]) by {
            if j < before.len() {
                assert(whole[j] == before[j]);
            } else if j > before.len() {
                assert(whole[j] == texts[last][j - before.len() - 1]);
            }
        }
    } else if texts.len() == 1 {
        assert forall|j: int| 0 <= j < text::joined(texts, ',').len() implies is_cpuset_char(
            #[trigger] text::joined(texts, ',')[j],
        ) by {
            assert(is_cpuset_char(texts[0][j]));
        }
    }
}

/// Different masks never share a directory: their leaf names differ.
pub proof fn law_leaf_names_differ(a: usize, b: usize)
    requires
        leaf_name(cpuset_text(a)) == leaf_name(cpuset_text(b)),
    ensures
        a == b,
{
    let left = cpuset_text(a);
    let right = cpuset_text(b);
    let prefix = "affix-"@;
    assert(leaf_name(left).len() == prefix.len() + left.len());
    assert(leaf_name(right).len() == prefix.len() + right.len());
    lemma_runs(a, 0);
    lemma_runs(b, 0);
    assert forall|i: int, j: int|
        0 <= i < run_texts(runs(a, 0)).len() && 0 <= j < run_texts(
            runs(a, 0),
        )[i].len() implies is_cpuset_char(#[trigger] run_texts(runs(a, 0))[i][j]) by {
        lemma_run_text(runs(a, 0)[i]);
    }
    assert forall|i: int, j: int|
        0 <= i < run_texts(runs(b, 0)).len() && 0 <= j < run_texts(
            runs(b, 0),
        )[i].len() implies is_cpuset_char(#[trigger] run_texts(runs(b, 0))[i][j]) by {
        lemma_run_text(runs(b, 0)[i]);
    }
    lemma_cpuset_characters(run_texts(runs(a, 0)));
    lemma_cpuset_characters(run_texts(runs(b, 0)));
    assert forall|i: int| 0 <= i < left.len() implies left[i] == right[i] by {
        assert(leaf_name(left)[prefix.len() + i] == sanitized_char(left[i]));
        assert(leaf_name(right)[prefix.len() + i] == sanitized_char(right[i]));
        assert(is_cpuset_char(left[i]) && is_cpuset_char(right[i]));
    }
    assert(left =~= right);
    law_cpuset_text_reads_back(a);
    law_cpuset_text_reads_back(b);
    assert forall|cpu: int| 0 <= cpu < usize::BITS implies mask::has_cpu(a, cpu) == mask::has_cpu(
        b,
        cpu,
    ) by {
        assert(names_cpu(left, cpu) <==> mask::has_cpu(a, cpu));
        assert(names_cpu(right, cpu) <==> mask::has_cpu(b, cpu));
    }
    mask::lemma_extensional(a, b);
}

/// The bitmap holds the processor: bit `cpu % 8` of byte `cpu / 8` is set.
pub open spec fn bitmap_has(bytes: Seq<u8>, cpu: int) -> bool {
    &&& 0 <= cpu
    &&& cpu / 8 < bytes.len()
    &&& (bytes[cpu / 8] >> ((cpu % 8) as u8)) & 1 == 1
}

/// The bitmap has no byte more than it needs.
pub open spec fn is_shortest(bytes: Seq<u8>) -> bool {
    bytes.len() > 0 ==> bytes.last() != 0
}

proof fn lemma_set_bit(byte: u8, bit: u8)
    requires
        bit < 8,
    ensures
        (byte | (1u8 << bit)) != 0,
        forall|other: u8|
            other < 8 ==> ((#[trigger] ((byte | (1u8 << bit)) >> other)) & 1 == 1 <==> (other == bit
                || (byte >> other) & 1 == 1)),
{
    assert((byte | (1u8 << bit)) != 0) by (bit_vector)
        requires
            bit < 8,
    ;
    assert forall|other: u8| other < 8 implies ((#[trigger] ((byte | (1u8 << bit)) >> other)) & 1
        == 1 <==> (other == bit || (byte >> other) & 1 == 1)) by {
        assert((((byte | (1u8 << bit)) >> other) & 1 == 1) <==> (other == bit || (byte >> other) & 1
            == 1)) by (bit_vector)
            requires
                bit < 8,
                other < 8,
        ;
    }
}

proof fn lemma_zero_byte(bit: u8)
    ensures
        (0u8 >> bit) & 1 == 0,
{
    assert((0u8 >> bit) & 1 == 0) by (bit_vector);
}

/// The members of `mask` as a bitmap: one bit for each processor, the lowest first.
pub fn systemd_allowed_cpus_bytes(mask: usize) -> (bytes: Vec<u8>)
    ensures
        forall|cpu: int| #[trigger] bitmap_has(bytes@, cpu) <==> mask::has_cpu(mask, cpu),
        is_shortest(bytes@),
{
    let mut bytes: Vec<u8> = Vec::new();
    let mut cpu: usize = 0;
    while cpu < usize::BITS as usize
        invariant
            cpu <= usize::BITS,
            bytes@.len() <= (cpu + 7) / 8,
            is_shortest(bytes@),
            forall|other: int| #[trigger]
                bitmap_has(bytes@, other) <==> other < cpu && mask::has_cpu(mask, other),
        decreases usize::BITS - cpu,
    {
        let ghost before = bytes@;
        if mask::contains_cpu(mask, cpu) {
            let index: usize = cpu / 8;
            let bit: u8 = (cpu % 8) as u8;
            if bytes.len() <= index {
                while bytes.len() <= index
                    invariant
                        before.len() <= bytes@.len(),
                        bytes@.len() <= index + 1,
                        before.len() <= index,
                        forall|k: int| 0 <= k < before.len() ==> bytes@[k] == before[k],
                        forall|k: int| before.len() <= k < bytes@.len() ==> bytes@[k] == 0,
                    decreases index + 1 - bytes@.len(),
                {
                    bytes.push(0);
                }
            }
            let ghost padded = bytes@;
            assert forall|other: int| #[trigger] bitmap_has(padded, other) <==> bitmap_has(
                before,
                other,
            ) by {
                if 0 <= other && before.len() <= other / 8 < padded.len() {
                    lemma_zero_byte((other % 8) as u8);
                }
            }
            let value: u8 = bytes[index] | (1u8 << bit);
            proof {
                lemma_set_bit(padded[index as int], bit);
            }
            bytes.set(index, value);
            assert forall|other: int| #[trigger] bitmap_has(bytes@, other) <==> other < cpu + 1
                && mask::has_cpu(mask, other) by {
                assert(bitmap_has(before, other) <==> other < cpu && mask::has_cpu(mask, other));
                assert(bitmap_has(padded, other) <==> bitmap_has(before, other));
                if 0 <= other && other / 8 == index {
                    let bit_of_other = (other % 8) as u8;
                    assert(((value >> bit_of_other) & 1 == 1) <==> (bit_of_other == bit || (
                    padded[index as int] >> bit_of_other) & 1 == 1));
                }
            }
        } else {
            assert forall|other: int| #[trigger] bitmap_has(bytes@, other) <==> other < cpu + 1
                && mask::has_cpu(mask, other) by {
                assert(bitmap_has(before, other) <==> other < cpu && mask::has_cpu(mask, other));
            }
        }
        cpu = cpu + 1;
    }
    bytes
}

/// A bitmap stands for one mask only.
pub proof fn law_bitmap_tells_the_mask(bytes: Seq<u8>, a: usize, b: usize)
    requires
        forall|cpu: int| #[trigger] bitmap_has(bytes, cpu) <==> mask::has_cpu(a, cpu),
        forall|cpu: int| #[trigger] bitmap_has(bytes, cpu) <==> mask::has_cpu(b, cpu),
    ensures
        a == b,
{
    assert forall|cpu: int| 0 <= cpu < usize::BITS implies mask::has_cpu(a, cpu) == mask::has_cpu(
        b,
        cpu,
    ) by {
        assert(bitmap_has(bytes, cpu) <==> mask::has_cpu(a, cpu));
    }
    mask::lemma_extensional(a, b);
}

/// A character of a processor set as it may stand in a directory name.
pub open spec fn sanitized_char(c: char) -> char {
    if text::is_digit(c) || c == '-' {
        c
    } else if c == ',' {
        '_'
    } else {
        '-'
    }
}

pub open spec fn sanitized(cpuset: Seq<char>) -> Seq<char> {
    cpuset.map_values(|c: char| sanitized_char(c))
}

pub open spec fn leaf_name(cpuset: Seq<char>) -> Seq<char> {
    "affix-"@ + sanitized(cpuset)
}

pub fn sanitize_cpuset_name(cpuset: &str) -> (name: String)
    ensures
        name@ == sanitized(cpuset@),
{
    let chars = text::characters(cpuset);
    let mut name = String::new();
    let mut i: usize = 0;
    while i < chars.len()
        invariant
            i <= chars@.len(),
            chars@ == cpuset@,
            name@ == sanitized(chars@.subrange(0, i as int)),
        decreases chars@.len() - i,
    {
        let c = chars[i];
        if ('0' <= c && c <= '9') || c == '-' {
            name.push(c);
        } else if c == ',' {
            name.push('_');
        } else {
            name.push('-');
        }
        i = i + 1;
        assert(name@ =~= sanitized(chars@.subrange(0, i as int)));
    }
    assert(chars@.subrange(0, chars@.len() as int) =~= chars@);
    name
}

/// The name of the directory for the processes that share a processor set.
pub fn cgroup_leaf_name(cpuset: &str) -> (name: String)
    ensures
        name@ == leaf_name(cpuset@),
{
    let mut name = "affix-".to_string();
    text::append(&mut name, sanitize_cpuset_name(cpuset).as_str());
    name
}

} // verus!
