//! Facts about runs of operations on a task store, stated over the models
//! that the operations' own contracts use.
use vstd::prelude::*;
use crate::tasks::{
    TaskModel, completed_at, delimiter_free, false_text, is_delimiter, lemma_parse_at,
    parse_record, parse_records, record_line, record_lines, rendered, splits_at, status_marker,
    true_text,
};

verus! {

/// The store after `add_task` is called with each of `descriptions` in turn.
pub open spec fn added_all(m: Seq<TaskModel>, descriptions: Seq<Seq<char>>) -> Seq<TaskModel>
    decreases descriptions.len(),
{
    if descriptions.len() == 0 {
        m
    } else {
        added_all(m, descriptions.drop_last()).push((descriptions.last(), false))
    }
}

/// What `list_tasks` returns for a store.
pub open spec fn listing(m: Seq<TaskModel>) -> Seq<Seq<char>> {
    m.map_values(|t: TaskModel| rendered(t))
}

/// After a run of adds the listing holds what was there, then one open
/// entry per add, in the order of the calls.
pub proof fn lemma_adds_listed_in_order(m: Seq<TaskModel>, descriptions: Seq<Seq<char>>)
    ensures
        listing(added_all(m, descriptions)).len() == m.len() + descriptions.len(),
        listing(added_all(m, descriptions)) == listing(m) + descriptions.map_values(
            |d: Seq<char>| status_marker(false) + d,
        ),
    decreases descriptions.len(),
{
    if descriptions.len() > 0 {
        let rest = descriptions.drop_last();
        lemma_adds_listed_in_order(m, rest);
        let f = |d: Seq<char>| status_marker(false) + d;
        let before = added_all(m, rest);
        assert(listing(before.push((descriptions.last(), false))) =~= listing(before).push(
            status_marker(false) + descriptions.last(),
        ));
        assert(descriptions.map_values(f) =~= rest.map_values(f).push(
            status_marker(false) + descriptions.last(),
        ));
        assert(listing(added_all(m, descriptions)) =~= listing(m) + descriptions.map_values(
            |d: Seq<char>| status_marker(false) + d,
        ));
    } else {
        assert(listing(m) + descriptions.map_values(|d: Seq<char>| status_marker(false) + d)
            =~= listing(m));
    }
}

/// Completing a position in range marks that task done, keeps its
/// description, leaves every other task as it was, and doing it twice is
/// the same as doing it once.
pub proof fn lemma_complete_in_range(m: Seq<TaskModel>, index: int)
    requires
        0 <= index < m.len(),
    ensures
        completed_at(m, index).len() == m.len(),
        completed_at(m, index)[index] == (m[index].0, true),
        forall|j: int| 0 <= j < m.len() && j != index ==> #[trigger] completed_at(m, index)[j] == m[j],
        completed_at(completed_at(m, index), index) == completed_at(m, index),
{
    assert(completed_at(completed_at(m, index), index) =~= completed_at(m, index));
}

/// Completing a position out of range leaves the store as it was.
pub proof fn lemma_complete_out_of_range(m: Seq<TaskModel>, index: int)
    requires
        index < 0 || index >= m.len(),
    ensures
        completed_at(m, index) == m,
{
}

/// The saved line of a task whose description holds no separator reads
/// back as that task.
pub proof fn lemma_record_line_reads_back(t: TaskModel)
    requires
        delimiter_free(t.0),
    ensures
        parse_record(record_line(t)) == Some(t),
{
    let line = record_line(t);
    let k = t.0.len() as int;
    let flag = if t.1 { true_text() } else { false_text() };
    assert(line.subrange(0, k) =~= t.0);
    assert(line.subrange(k + 1, line.len() as int) =~= flag);
    assert(splits_at(line, k));
    lemma_parse_at(line, k);
    if !t.1 {
        assert(false_text()[0] != true_text()[0]);
    }
}

/// Reading a run of lines is reading each part of it in turn.
pub proof fn lemma_parse_records_append(a: Seq<Seq<char>>, b: Seq<Seq<char>>)
    ensures
        parse_records(a + b) == parse_records(a) + parse_records(b),
    decreases b.len(),
{
    if b.len() == 0 {
        assert(a + b =~= a);
        assert(parse_records(a) + parse_records(b) =~= parse_records(a));
    } else {
        lemma_parse_records_append(a, b.drop_last());
        assert((a + b).drop_last() =~= a + b.drop_last());
        assert((a + b).last() == b.last());
        match parse_record(b.last()) {
            Some(t) => {
                assert(parse_records(a + b) =~= parse_records(a) + parse_records(b));
            },
            None => {},
        }
    }
}

/// Saving a store whose descriptions hold no separator, then loading the
/// saved lines, gives back the same tasks in the same order.
pub proof fn lemma_save_load_round_trip(m: Seq<TaskModel>)
    requires
        forall|i: int| 0 <= i < m.len() ==> delimiter_free(#[trigger] m[i].0),
    ensures
        parse_records(record_lines(m)) == m,
    decreases m.len(),
{
    if m.len() > 0 {
        let rest = m.drop_last();
        assert forall|i: int| 0 <= i < rest.len() implies delimiter_free(#[trigger] rest[i].0) by {
            assert(rest[i] == m[i]);
        }
        lemma_save_load_round_trip(rest);
        assert(record_lines(m).drop_last() =~= record_lines(rest));
        lemma_record_line_reads_back(m.last());
        assert(parse_records(record_lines(m)) =~= m);
    } else {
        assert(record_lines(m) =~= Seq::<Seq<char>>::empty());
    }
}

/// Holds when `line` has no separator, or two or more.
pub open spec fn malformed(line: Seq<char>) -> bool {
    delimiter_free(line) || exists|p: int, q: int|
        0 <= p < q < line.len() && is_delimiter(#[trigger] line[p]) && is_delimiter(
            #[trigger] line[q],
        )
}

/// A line with no separator, or with two or more, stands for no task.
pub proof fn lemma_malformed_line_reads_as_nothing(line: Seq<char>)
    requires
        malformed(line),
    ensures
        parse_record(line) is None,
{
    assert forall|k: int| !splits_at(line, k) by {
        if splits_at(line, k) {
            if delimiter_free(line) {
                assert(is_delimiter(line[k]));
            } else {
                let (p, q) = choose|p: int, q: int|
                    0 <= p < q < line.len() && is_delimiter(#[trigger] line[p]) && is_delimiter(
                        #[trigger] line[q],
                    );
                if k < q && k != p {
                    if p < k {
                        assert(line.subrange(0, k)[p] == line[p]);
                    } else {
                        assert(line.subrange(k + 1, line.len() as int)[p - k - 1] == line[p]);
                    }
                } else if k == p {
                    assert(line.subrange(k + 1, line.len() as int)[q - k - 1] == line[q]);
                } else {
                    assert(line.subrange(0, k)[p] == line[p]);
                }
            }
        }
    }
}

/// Loading skips a line with no separator, or with two or more, and reads
/// the lines around it as if it were not there.
pub proof fn lemma_malformed_line_skipped(
    before: Seq<Seq<char>>,
    line: Seq<char>,
    after: Seq<Seq<char>>,
)
    requires
        malformed(line),
    ensures
        parse_records(before + seq![line] + after) == parse_records(before) + parse_records(after),
{
    lemma_malformed_line_reads_as_nothing(line);
    lemma_parse_records_append(before + seq![line], after);
    assert((before + seq![line]).drop_last() =~= before);
}

/// A well-formed line whose second field is anything but `true` reads as a
/// task that is not completed.
pub proof fn lemma_flag_not_true_reads_open(description: Seq<char>, flag: Seq<char>)
    requires
        delimiter_free(description),
        delimiter_free(flag),
        flag != true_text(),
    ensures
        parse_record(description + seq!['|'] + flag) == Some((description, false)),
{
    let line = description + seq!['|'] + flag;
    let k = description.len() as int;
    assert(line.subrange(0, k) =~= description);
    assert(line.subrange(k + 1, line.len() as int) =~= flag);
    lemma_parse_at(line, k);
}

} // verus!
