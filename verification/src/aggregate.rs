//! The aggregator: concatenates the events of all issue and comment
//! records, in record order with each issue's title event before its body
//! event and all issue events before all comment events, then sorts the
//! collection by instant, ascending and stable — events with equal
//! instants keep their extraction order.

use vstd::prelude::*;
use crate::event::{Event, EventModel};
use crate::extract::{
    CommentModel, CommentRecord, ExtractError, IssueModel, IssueRecord, comment_event,
    comment_ok, extract_comment_event, extract_issue_events, issue_body_event, issue_err_text,
    issue_ok, issue_title_event,
};

verus! {

/// The models of a sequence of events.
pub open spec fn models(s: Seq<Event>) -> Seq<EventModel> {
    s.map_values(|e: Event| e@)
}

/// The models of a sequence of issue records.
pub open spec fn issue_models(s: Seq<IssueRecord>) -> Seq<IssueModel> {
    s.map_values(|r: IssueRecord| r@)
}

/// The models of a sequence of comment records.
pub open spec fn comment_models(s: Seq<CommentRecord>) -> Seq<CommentModel> {
    s.map_values(|c: CommentRecord| c@)
}

/// Sorted ascending by instant.
pub open spec fn sorted_by_when(s: Seq<EventModel>) -> bool {
    forall|i: int, j: int| 0 <= i < j < s.len() ==> s[i].when <= s[j].when
}

/// The events of a sequence of issue records, in record order, each
/// issue's title event directly before its body event.
pub open spec fn issue_events_seq(issues: Seq<IssueModel>) -> Seq<EventModel>
    decreases issues.len(),
{
    if issues.len() == 0 {
        Seq::<EventModel>::empty()
    } else {
        issue_events_seq(issues.drop_last())
            + seq![issue_title_event(issues.last()), issue_body_event(issues.last())]
    }
}

/// The events of a sequence of comment records, in record order.
pub open spec fn comment_events_seq(cs: Seq<CommentModel>) -> Seq<EventModel>
    decreases cs.len(),
{
    if cs.len() == 0 {
        Seq::<EventModel>::empty()
    } else {
        comment_events_seq(cs.drop_last()).push(comment_event(cs.last()))
    }
}

/// All extracted events in extraction order: issue events first, then
/// comment events.
pub open spec fn extracted_events(issues: Seq<IssueModel>, cs: Seq<CommentModel>) -> Seq<
    EventModel,
> {
    issue_events_seq(issues) + comment_events_seq(cs)
}

/// Whether every record's needed timestamps parse.
pub open spec fn all_records_ok(issues: Seq<IssueModel>, cs: Seq<CommentModel>) -> bool {
    &&& forall|i: int| 0 <= i < issues.len() ==> issue_ok(#[trigger] issues[i])
    &&& forall|i: int| 0 <= i < cs.len() ==> comment_ok(#[trigger] cs[i])
}

/// Stable insertion of `e` into a when-sorted sequence: `e` goes after
/// every element whose instant is `<=` its own, so an element already
/// present wins a tie.
pub open spec fn insert_stable(s: Seq<EventModel>, e: EventModel) -> Seq<EventModel>
    decreases s.len(),
{
    if s.len() == 0 {
        seq![e]
    } else if s.last().when <= e.when {
        s.push(e)
    } else {
        insert_stable(s.drop_last(), e).push(s.last())
    }
}

/// Stable sort by instant: insert each element, left to right, into the
/// sorted prefix.
pub open spec fn stable_sort(s: Seq<EventModel>) -> Seq<EventModel>
    decreases s.len(),
{
    if s.len() == 0 {
        s
    } else {
        insert_stable(stable_sort(s.drop_last()), s.last())
    }
}

/// The subsequence of elements whose instant is exactly `t`, in order.
pub open spec fn when_eq_sub(s: Seq<EventModel>, t: i64) -> Seq<EventModel>
    decreases s.len(),
{
    if s.len() == 0 {
        s
    } else if s.last().when == t {
        when_eq_sub(s.drop_last(), t).push(s.last())
    } else {
        when_eq_sub(s.drop_last(), t)
    }
}

proof fn lemma_insert_stable_props(s: Seq<EventModel>, e: EventModel)
    requires
        sorted_by_when(s),
    ensures
        sorted_by_when(insert_stable(s, e)),
        insert_stable(s, e).len() == s.len() + 1,
        forall|k: int|
            0 <= k < insert_stable(s, e).len()
                ==> #[trigger] insert_stable(s, e)[k] == e || s.contains(insert_stable(s, e)[k]),
    decreases s.len(),
{
    if s.len() == 0 {
    } else if s.last().when <= e.when {
    } else {
        assert(sorted_by_when(s.drop_last()));
        lemma_insert_stable_props(s.drop_last(), e);
        let inner = insert_stable(s.drop_last(), e);
        let r = inner.push(s.last());
        assert forall|i: int, j: int| 0 <= i < j < r.len() implies r[i].when <= r[j].when by {
            if j < r.len() - 1 {
            } else {
                if r[i] == e {
                    assert(e.when <= s.last().when);
                } else {
                    assert(s.drop_last().contains(r[i]));
                    let w = choose|w: int| 0 <= w < s.drop_last().len() && s.drop_last()[w] == r[i];
                    assert(s[w].when <= s.last().when);
                }
            }
        }
        assert forall|k: int| 0 <= k < r.len() implies #[trigger] r[k] == e || s.contains(r[k]) by {
            if k < r.len() - 1 {
                if inner[k] != e {
                    assert(s.drop_last().contains(inner[k]));
                    let w = choose|w: int|
                        0 <= w < s.drop_last().len() && s.drop_last()[w] == inner[k];
                    assert(s[w] == inner[k]);
                }
            } else {
                assert(s[s.len() - 1] == s.last());
            }
        }
    }
}

proof fn lemma_insert_stable_when_eq(s: Seq<EventModel>, e: EventModel, t: i64)
    ensures
        when_eq_sub(insert_stable(s, e), t) == (
            if e.when == t {
                when_eq_sub(s, t).push(e)
            } else {
                when_eq_sub(s, t)
            }
        ),
    decreases s.len(),
{
    if s.len() == 0 {
        assert(seq![e].drop_last() =~= s);
        assert(seq![e].last() == e);
    } else if s.last().when <= e.when {
        assert(s.push(e).drop_last() =~= s);
    } else {
        lemma_insert_stable_when_eq(s.drop_last(), e, t);
        let inner = insert_stable(s.drop_last(), e);
        assert(inner.push(s.last()).drop_last() =~= inner);
    }
}

/// The stable sort's output is sorted ascending by instant, has the same
/// length as its input, and holds only elements of its input.
pub proof fn lemma_stable_sort_sorted(s: Seq<EventModel>)
    ensures
        sorted_by_when(stable_sort(s)),
        stable_sort(s).len() == s.len(),
        forall|k: int| 0 <= k < stable_sort(s).len() ==> s.contains(#[trigger] stable_sort(s)[k]),
    decreases s.len(),
{
    if s.len() == 0 {
    } else {
        lemma_stable_sort_sorted(s.drop_last());
        lemma_insert_stable_props(stable_sort(s.drop_last()), s.last());
        let r = stable_sort(s);
        assert forall|k: int| 0 <= k < r.len() implies s.contains(#[trigger] r[k]) by {
            if r[k] == s.last() {
                assert(s[s.len() - 1] == s.last());
            } else {
                assert(stable_sort(s.drop_last()).contains(r[k]));
                let w = choose|w: int|
                    0 <= w < stable_sort(s.drop_last()).len() && stable_sort(s.drop_last())[w]
                        == r[k];
                assert(s.drop_last().contains(r[k]));
                let v = choose|v: int| 0 <= v < s.drop_last().len() && s.drop_last()[v] == r[k];
                assert(s[v] == r[k]);
            }
        }
    }
}

/// Stability: sorting never reorders events that share an instant — for
/// every instant `t`, the sorted collection's events at `t` are exactly
/// the input's events at `t`, in the input's order.
pub proof fn lemma_stable_sort_stable(s: Seq<EventModel>, t: i64)
    ensures
        when_eq_sub(stable_sort(s), t) == when_eq_sub(s, t),
    decreases s.len(),
{
    if s.len() == 0 {
    } else {
        lemma_stable_sort_stable(s.drop_last(), t);
        lemma_insert_stable_when_eq(stable_sort(s.drop_last()), s.last(), t);
    }
}

proof fn lemma_insert_stable_splice(s: Seq<EventModel>, e: EventModel, j: int)
    requires
        sorted_by_when(s),
        0 <= j <= s.len(),
        forall|k: int| j <= k < s.len() ==> s[k].when > e.when,
        j > 0 ==> s[j - 1].when <= e.when,
    ensures
        insert_stable(s, e) == s.insert(j, e),
    decreases s.len(),
{
    if s.len() == 0 {
        assert(insert_stable(s, e) =~= s.insert(0, e));
    } else if j == s.len() {
        assert(insert_stable(s, e) =~= s.insert(j, e));
    } else {
        assert(s[s.len() - 1].when > e.when);
        assert(sorted_by_when(s.drop_last()));
        lemma_insert_stable_splice(s.drop_last(), e, j);
        assert(insert_stable(s.drop_last(), e).push(s.last()) =~= s.insert(j, e));
    }
}

fn insert_event(out: &mut Vec<Event>, e: Event)
    requires
        sorted_by_when(models(old(out)@)),
    ensures
        models(final(out)@) == insert_stable(models(old(out)@), e@),
{
    let ghost s = models(old(out)@);
    let mut j = out.len();
    while j > 0 && out[j - 1].when > e.when
        invariant
            j <= out.len(),
            out@ == old(out)@,
            forall|k: int| j <= k < s.len() ==> s[k].when > e.when,
            s == models(out@),
        decreases j,
    {
        j = j - 1;
    }
    out.insert(j, e);
    proof {
        lemma_insert_stable_splice(s, e@, j as int);
        assert(models(final(out)@) =~= s.insert(j as int, e@));
    }
}

fn sort_events(v: Vec<Event>) -> (r: Vec<Event>)
    ensures
        models(r@) == stable_sort(models(v@)),
{
    let ghost orig = models(v@);
    let mut v = v;
    let mut out: Vec<Event> = Vec::new();
    let ghost mut i: int = 0;
    while v.len() > 0
        invariant
            0 <= i,
            i + v.len() == orig.len(),
            models(v@) =~= orig.skip(i),
            models(out@) == stable_sort(orig.take(i)),
            sorted_by_when(models(out@)),
        decreases v.len(),
    {
        let ghost before = v@;
        let e = v.remove(0);
        proof {
            assert(models(before)[0] == e@);
            assert(orig[i] == e@);
            assert(models(v@) =~= models(before).drop_first());
            assert(models(before).drop_first() =~= orig.skip(i + 1));
            assert(orig.take(i + 1).drop_last() =~= orig.take(i));
            assert(orig.take(i + 1).last() == orig[i]);
            lemma_stable_sort_sorted(orig.take(i));
            lemma_insert_stable_props(stable_sort(orig.take(i)), e@);
        }
        insert_event(&mut out, e);
        proof {
            i = i + 1;
        }
    }
    proof {
        assert(orig.take(orig.len() as int) =~= orig);
    }
    out
}

/// Extracts every record's events and returns them sorted ascending by
/// instant, with extraction order kept among equal instants. Succeeds
/// exactly where every record's needed timestamp text parses; otherwise
/// returns the first extraction error in record order, issues first.
pub fn aggregate(issues: &Vec<IssueRecord>, comments: &Vec<CommentRecord>) -> (out: Result<
    Vec<Event>,
    ExtractError,
>)
    ensures
        out is Ok <==> all_records_ok(issue_models(issues@), comment_models(comments@)),
        out is Ok ==> {
            let evs = models(out->Ok_0@);
            &&& evs == stable_sort(
                extracted_events(issue_models(issues@), comment_models(comments@)),
            )
            &&& sorted_by_when(evs)
            &&& evs.len() == 2 * issues@.len() + comments@.len()
            &&& forall|k: int| 0 <= k < evs.len() ==> (#[trigger] evs[k]).wf()
        },
        out is Err ==> ({
            let im = issue_models(issues@);
            let cm = comment_models(comments@);
            ||| exists|i: int|
                0 <= i < im.len() && !issue_ok(#[trigger] im[i]) && (forall|k: int|
                    0 <= k < i ==> issue_ok(#[trigger] im[k]))
                    && out->Err_0.bad_timestamp@ == issue_err_text(im[i])
            ||| ((forall|k: int| 0 <= k < im.len() ==> issue_ok(#[trigger] im[k])) && exists|j: int|
                0 <= j < cm.len() && !comment_ok(#[trigger] cm[j]) && (forall|k: int|
                    0 <= k < j ==> comment_ok(#[trigger] cm[k]))
                    && out->Err_0.bad_timestamp@ == cm[j].updated_at)
        }),
{
    let ghost imodels = issue_models(issues@);
    let ghost cmodels = comment_models(comments@);
    let mut evs: Vec<Event> = Vec::new();
    let mut i: usize = 0;
    while i < issues.len()
        invariant
            i <= issues.len(),
            imodels == issue_models(issues@),
            models(evs@) =~= issue_events_seq(imodels.take(i as int)),
            forall|k: int| 0 <= k < i ==> issue_ok(#[trigger] imodels[k]),
            forall|k: int| 0 <= k < models(evs@).len() ==> (#[trigger] models(evs@)[k]).wf(),
        decreases issues.len() - i,
    {
        proof {
            assert(imodels[i as int] == issues@[i as int]@);
        }
        let mut two = match extract_issue_events(&issues[i]) {
            Ok(two) => two,
            Err(e) => {
                proof {
                    assert(!issue_ok(imodels[i as int]));
                    assert(e.bad_timestamp@ == issue_err_text(imodels[i as int]));
                }
                return Err(e);
            },
        };
        let title = two.remove(0);
        let body = two.remove(0);
        evs.push(title);
        evs.push(body);
        proof {
            assert(title@ == issue_title_event(imodels[i as int]));
            assert(body@ == issue_body_event(imodels[i as int]));
            assert(imodels.take(i + 1).drop_last() =~= imodels.take(i as int));
            assert(imodels.take(i + 1).last() == imodels[i as int]);
            assert(models(evs@) =~= issue_events_seq(imodels.take(i + 1)));
        }
        i = i + 1;
    }
    proof {
        assert(imodels.take(imodels.len() as int) =~= imodels);
    }
    let mut j: usize = 0;
    while j < comments.len()
        invariant
            j <= comments.len(),
            imodels == issue_models(issues@),
            cmodels == comment_models(comments@),
            forall|k: int| 0 <= k < imodels.len() ==> issue_ok(#[trigger] imodels[k]),
            forall|k: int| 0 <= k < j ==> comment_ok(#[trigger] cmodels[k]),
            models(evs@) =~= issue_events_seq(imodels) + comment_events_seq(
                cmodels.take(j as int),
            ),
            forall|k: int| 0 <= k < models(evs@).len() ==> (#[trigger] models(evs@)[k]).wf(),
        decreases comments.len() - j,
    {
        proof {
            assert(cmodels[j as int] == comments@[j as int]@);
        }
        let ev = match extract_comment_event(&comments[j]) {
            Ok(ev) => ev,
            Err(e) => {
                proof {
                    assert(!comment_ok(cmodels[j as int]));
                    assert(e.bad_timestamp@ == cmodels[j as int].updated_at);
                }
                return Err(e);
            },
        };
        let ghost prev = evs@;
        evs.push(ev);
        proof {
            assert(ev@ == comment_event(cmodels[j as int]));
            assert(cmodels.take(j + 1).drop_last() =~= cmodels.take(j as int));
            assert(cmodels.take(j + 1).last() == cmodels[j as int]);
            assert(comment_events_seq(cmodels.take(j + 1)) == comment_events_seq(
                cmodels.take(j as int),
            ).push(comment_event(cmodels[j as int])));
            assert(models(evs@) =~= models(prev).push(ev@));
            assert(models(evs@) =~= issue_events_seq(imodels) + comment_events_seq(
                cmodels.take(j + 1),
            ));
            assert forall|k: int| 0 <= k < models(evs@).len() implies (#[trigger] models(
                evs@,
            )[k]).wf() by {
                if k < models(prev).len() {
                    assert(models(evs@)[k] == models(prev)[k]);
                } else {
                    assert(models(evs@)[k] == ev@);
                }
            }
        }
        j = j + 1;
    }
    proof {
        assert(cmodels.take(cmodels.len() as int) =~= cmodels);
    }
    let ghost all = extracted_events(imodels, cmodels);
    let sorted = sort_events(evs);
    proof {
        lemma_stable_sort_sorted(all);
        assert forall|k: int| 0 <= k < models(sorted@).len() implies (#[trigger] models(
            sorted@,
        )[k]).wf() by {
            assert(all.contains(models(sorted@)[k]));
        }
        lemma_issue_events_len(imodels);
        lemma_comment_events_len(cmodels);
    }
    Ok(sorted)
}

proof fn lemma_issue_events_len(issues: Seq<IssueModel>)
    ensures
        issue_events_seq(issues).len() == 2 * issues.len(),
    decreases issues.len(),
{
    if issues.len() > 0 {
        lemma_issue_events_len(issues.drop_last());
    }
}

proof fn lemma_comment_events_len(cs: Seq<CommentModel>)
    ensures
        comment_events_seq(cs).len() == cs.len(),
    decreases cs.len(),
{
    if cs.len() > 0 {
        lemma_comment_events_len(cs.drop_last());
    }
}

} // verus!
