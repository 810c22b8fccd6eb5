//! The text renderer: turns the sorted event collection into a flat list
//! of feed lines — a day separator whenever the calendar day changes, then
//! per event a header line, the URL line and the wrapped, optionally
//! truncated body lines. Printing and coloring are the caller's business.

use vstd::prelude::*;
use crate::aggregate::models;
use crate::event::{Event, EventModel};
use crate::time::{day_str, format_day, format_hm, hm_str};

verus! {

/// The lines a wrapped text breaks into, in order, at the given width.
/// Relies on textwrap's `wrap`: the result is a function of the text and
/// the width alone.
pub uninterp spec fn wrap_of(s: Seq<char>, width: usize) -> Seq<Seq<char>>;

/// Relies on textwrap's `wrap` (each resulting line copied out as an
/// owned string).
#[verifier::external_body]
fn wrap_text(s: &str, width: usize) -> (r: Vec<String>)
    ensures
        r@.map_values(|l: String| l@) == wrap_of(s@, width),
{
    textwrap::wrap(s, width).into_iter().map(|l| l.into_owned()).collect()
}

/// One line of the text feed.
pub enum TextLine {
    /// Introduces a new calendar day, printed once per run of same-day
    /// events.
    Separator { day: String },
    /// An event's time of day, actor and category.
    Header { hm: String, who: String, category: String },
    /// An event's link.
    UrlLine { url: String },
    /// One wrapped line of an event's text payload.
    BodyLine { text: String },
}

/// The model of a [`TextLine`].
pub enum LineModel {
    Separator { day: Seq<char> },
    Header { hm: Seq<char>, who: Seq<char>, category: Seq<char> },
    UrlLine { url: Seq<char> },
    BodyLine { text: Seq<char> },
}

impl View for TextLine {
    type V = LineModel;

    open spec fn view(&self) -> LineModel {
        match self {
            TextLine::Separator { day } => LineModel::Separator { day: day@ },
            TextLine::Header { hm, who, category } => LineModel::Header {
                hm: hm@,
                who: who@,
                category: category@,
            },
            TextLine::UrlLine { url } => LineModel::UrlLine { url: url@ },
            TextLine::BodyLine { text } => LineModel::BodyLine { text: text@ },
        }
    }
}

/// The models of a sequence of feed lines.
pub open spec fn line_models(s: Seq<TextLine>) -> Seq<LineModel> {
    s.map_values(|l: TextLine| l@)
}

/// The body lines of one event: its text wrapped to `width`, all of them
/// where `limit` is zero or not smaller than their number, else the first
/// `limit` of them.
pub open spec fn body_lines(what: Seq<char>, width: usize, limit: usize) -> Seq<Seq<char>> {
    let w = wrap_of(what, width);
    if limit == 0 || limit >= w.len() {
        w
    } else {
        w.take(limit as int)
    }
}

/// The feed lines of one event, given the day text last introduced: a
/// separator where its own day differs, then header, URL and body lines.
pub open spec fn event_lines(e: EventModel, prev_day: Seq<char>, width: usize, limit: usize) -> Seq<
    LineModel,
> {
    let sep: Seq<LineModel> = if day_str(e.when) != prev_day {
        seq![LineModel::Separator { day: day_str(e.when) }]
    } else {
        Seq::<LineModel>::empty()
    };
    sep + seq![
        LineModel::Header { hm: hm_str(e.when), who: e.who, category: e.category },
        LineModel::UrlLine { url: e.url },
    ] + body_lines(e.what, width, limit).map_values(|t: Seq<char>| LineModel::BodyLine { text: t })
}

/// The feed lines of an event sequence, starting from the day text last
/// introduced (the empty string at the top of the feed, so the first
/// event always gets a separator).
pub open spec fn render_from(
    events: Seq<EventModel>,
    prev_day: Seq<char>,
    width: usize,
    limit: usize,
) -> Seq<LineModel>
    decreases events.len(),
{
    if events.len() == 0 {
        Seq::<LineModel>::empty()
    } else {
        event_lines(events[0], prev_day, width, limit) + render_from(
            events.drop_first(),
            day_str(events[0].when),
            width,
            limit,
        )
    }
}

/// The whole feed of a sorted event sequence.
pub open spec fn render_text_spec(events: Seq<EventModel>, width: usize, limit: usize) -> Seq<
    LineModel,
> {
    render_from(events, Seq::<char>::empty(), width, limit)
}

fn event_lines_exec(e: &Event, prev_day: &String, width: usize, limit: usize) -> (r: Vec<TextLine>)
    ensures
        line_models(r@) == event_lines(e@, prev_day@, width, limit),
{
    let mut out: Vec<TextLine> = Vec::new();
    let day = format_day(e.when);
    if !(day == *prev_day) {
        out.push(TextLine::Separator { day });
    }
    out.push(
        TextLine::Header {
            hm: format_hm(e.when),
            who: e.who.clone(),
            category: e.category.clone(),
        },
    );
    out.push(TextLine::UrlLine { url: e.url.clone() });
    let wrapped = wrap_text(e.what.as_str(), width);
    let ghost wm = wrap_of(e.what@, width);
    let ghost base = line_models(out@);
    let count: usize = if limit == 0 || limit >= wrapped.len() {
        wrapped.len()
    } else {
        limit
    };
    let mut k: usize = 0;
    while k < count
        invariant
            k <= count,
            count <= wrapped@.len(),
            wrapped@.map_values(|l: String| l@) == wm,
            line_models(out@) == base + wm.take(k as int).map_values(
                |t: Seq<char>| LineModel::BodyLine { text: t },
            ),
        decreases count - k,
    {
        let ghost prev_lines = line_models(out@);
        out.push(TextLine::BodyLine { text: wrapped[k].clone() });
        proof {
            assert(wm.take(k + 1).drop_last() =~= wm.take(k as int));
            assert(wm.take(k + 1).last() == wm[k as int]);
            assert(wm[k as int] == wrapped@[k as int]@);
            assert(line_models(out@) =~= prev_lines.push(
                LineModel::BodyLine { text: wm[k as int] },
            ));
            assert(wm.take(k + 1).map_values(|t: Seq<char>| LineModel::BodyLine { text: t })
                =~= wm.take(k as int).map_values(
                |t: Seq<char>| LineModel::BodyLine { text: t },
            ).push(LineModel::BodyLine { text: wm[k as int] }));
            assert(line_models(out@) =~= base + wm.take(k + 1).map_values(
                |t: Seq<char>| LineModel::BodyLine { text: t },
            ));
        }
        k = k + 1;
    }
    proof {
        assert(wm.take(wm.len() as int) =~= wm);
        assert(body_lines(e@.what, width, limit) == wm.take(count as int));
        assert(line_models(out@) =~= event_lines(e@, prev_day@, width, limit));
    }
    out
}

/// Renders the sorted event collection as the text feed: per event a day
/// separator where its calendar day differs from the previous event's
/// (always for the first event), its header and URL lines, and its text
/// wrapped to `width` — all wrapped lines where `limit` is zero, else at
/// most `limit` of them.
pub fn render_text(events: &Vec<Event>, width: usize, limit: usize) -> (r: Vec<TextLine>)
    ensures
        line_models(r@) == render_text_spec(models(events@), width, limit),
{
    let ghost ms = models(events@);
    let mut out: Vec<TextLine> = Vec::new();
    let mut prev_day = String::new();
    proof {
        assert(ms.skip(0) =~= ms);
        assert(line_models(out@) + render_from(ms, prev_day@, width, limit) =~= render_from(
            ms,
            Seq::<char>::empty(),
            width,
            limit,
        ));
    }
    let mut i: usize = 0;
    while i < events.len()
        invariant
            i <= events.len(),
            ms == models(events@),
            ms.len() == events@.len(),
            line_models(out@) + render_from(ms.skip(i as int), prev_day@, width, limit)
                == render_text_spec(ms, width, limit),
            i > 0 ==> prev_day@ == day_str(ms[i - 1].when),
            i == 0 ==> prev_day@ == Seq::<char>::empty(),
        decreases events.len() - i,
    {
        let ghost pd = prev_day@;
        let ghost before = line_models(out@);
        let mut lines = event_lines_exec(&events[i], &prev_day, width, limit);
        out.append(&mut lines);
        prev_day = format_day(events[i].when);
        proof {
            assert(ms[i as int] == events@[i as int]@);
            assert(prev_day@ == day_str(ms[i as int].when));
            assert(ms.skip(i as int)[0] == ms[i as int]);
            assert(ms.skip(i as int).drop_first() =~= ms.skip(i + 1));
            assert(line_models(out@) =~= before + event_lines(ms[i as int], pd, width, limit));
            assert(render_from(ms.skip(i as int), pd, width, limit) == event_lines(
                ms[i as int],
                pd,
                width,
                limit,
            ) + render_from(ms.skip(i + 1), day_str(ms[i as int].when), width, limit));
            assert(line_models(out@) + render_from(
                ms.skip(i + 1),
                day_str(ms[i as int].when),
                width,
                limit,
            ) =~= before + render_from(ms.skip(i as int), pd, width, limit));
        }
        i = i + 1;
    }
    proof {
        assert(ms.skip(ms.len() as int) =~= Seq::<EventModel>::empty());
        assert(line_models(out@) + Seq::<LineModel>::empty() =~= line_models(out@));
    }
    out
}

/// The days of the separators among the feed lines, in order.
pub open spec fn sep_days(lines: Seq<LineModel>) -> Seq<Seq<char>>
    decreases lines.len(),
{
    if lines.len() == 0 {
        Seq::<Seq<char>>::empty()
    } else {
        let rest = sep_days(lines.drop_first());
        match lines[0] {
            LineModel::Separator { day } => seq![day] + rest,
            _ => rest,
        }
    }
}

/// The days of an event sequence, one per event.
pub open spec fn days_of(events: Seq<EventModel>) -> Seq<Seq<char>> {
    events.map_values(|e: EventModel| day_str(e.when))
}

/// `days` with each run of equal adjacent values reduced to its first
/// element, starting from `prev` (a leading run equal to `prev` vanishes).
pub open spec fn dedup_adjacent(prev: Seq<char>, days: Seq<Seq<char>>) -> Seq<Seq<char>>
    decreases days.len(),
{
    if days.len() == 0 {
        Seq::<Seq<char>>::empty()
    } else if days[0] == prev {
        dedup_adjacent(prev, days.drop_first())
    } else {
        seq![days[0]] + dedup_adjacent(days[0], days.drop_first())
    }
}

proof fn lemma_sep_days_add(a: Seq<LineModel>, b: Seq<LineModel>)
    ensures
        sep_days(a + b) == sep_days(a) + sep_days(b),
    decreases a.len(),
{
    if a.len() == 0 {
        assert(a + b =~= b);
        assert(sep_days(a) + sep_days(b) =~= sep_days(b));
    } else {
        lemma_sep_days_add(a.drop_first(), b);
        assert((a + b).drop_first() =~= a.drop_first() + b);
        assert((a + b)[0] == a[0]);
        match a[0] {
            LineModel::Separator { day } => {
                assert(sep_days(a + b) =~= sep_days(a) + sep_days(b));
            },
            _ => {},
        }
    }
}

proof fn lemma_sep_days_event(e: EventModel, prev_day: Seq<char>, width: usize, limit: usize)
    ensures
        sep_days(event_lines(e, prev_day, width, limit)) == (
            if day_str(e.when) != prev_day {
                seq![day_str(e.when)]
            } else {
                Seq::<Seq<char>>::empty()
            }
        ),
{
    let lines = event_lines(e, prev_day, width, limit);
    let bodies = body_lines(e.what, width, limit).map_values(
        |t: Seq<char>| LineModel::BodyLine { text: t },
    );
    assert forall|k: int| 0 <= k < bodies.len() implies !(bodies[k] is Separator) by {
        assert(bodies[k] == (LineModel::BodyLine { text: body_lines(e.what, width, limit)[k] }));
    }
    lemma_sep_days_none(bodies);
    let mid = seq![
        LineModel::Header { hm: hm_str(e.when), who: e.who, category: e.category },
        LineModel::UrlLine { url: e.url },
    ];
    assert forall|k: int| 0 <= k < mid.len() implies !((#[trigger] mid[k]) is Separator) by {
    }
    lemma_sep_days_none(mid);
    if day_str(e.when) != prev_day {
        let sep = seq![LineModel::Separator { day: day_str(e.when) }];
        assert(sep.drop_first() =~= Seq::<LineModel>::empty());
        assert(sep_days(sep.drop_first()) =~= Seq::<Seq<char>>::empty());
        assert(sep[0] is Separator);
        assert(sep_days(sep) =~= seq![day_str(e.when)]);
        lemma_sep_days_add(sep + mid, bodies);
        lemma_sep_days_add(sep, mid);
        assert(sep_days(lines) =~= seq![day_str(e.when)]);
    } else {
        assert(Seq::<LineModel>::empty() + mid =~= mid);
        lemma_sep_days_add(mid, bodies);
        assert(sep_days(lines) =~= Seq::<Seq<char>>::empty());
    }
}

proof fn lemma_sep_days_none(lines: Seq<LineModel>)
    requires
        forall|k: int| 0 <= k < lines.len() ==> !((#[trigger] lines[k]) is Separator),
    ensures
        sep_days(lines) == Seq::<Seq<char>>::empty(),
    decreases lines.len(),
{
    if lines.len() > 0 {
        lemma_sep_days_none(lines.drop_first());
    }
}

/// Day separators appear exactly where the calendar day changes: the
/// separators of the rendered feed carry, in order, the days of the
/// events with each run of adjacent equal days introduced exactly once,
/// and a day equal to the one already in force introducing none.
pub proof fn lemma_day_separators(
    events: Seq<EventModel>,
    prev_day: Seq<char>,
    width: usize,
    limit: usize,
)
    ensures
        sep_days(render_from(events, prev_day, width, limit)) == dedup_adjacent(
            prev_day,
            days_of(events),
        ),
    decreases events.len(),
{
    if events.len() == 0 {
        assert(days_of(events).len() == 0);
    } else {
        let e = events[0];
        lemma_day_separators(events.drop_first(), day_str(e.when), width, limit);
        lemma_sep_days_add(
            event_lines(e, prev_day, width, limit),
            render_from(events.drop_first(), day_str(e.when), width, limit),
        );
        lemma_sep_days_event(e, prev_day, width, limit);
        assert(days_of(events)[0] == day_str(e.when));
        assert(days_of(events).drop_first() =~= days_of(events.drop_first()));
        if day_str(e.when) != prev_day {
            assert(sep_days(render_from(events, prev_day, width, limit)) =~= dedup_adjacent(
                prev_day,
                days_of(events),
            ));
        } else {
            assert(Seq::<Seq<char>>::empty() + sep_days(
                render_from(events.drop_first(), day_str(e.when), width, limit),
            ) =~= sep_days(render_from(events.drop_first(), day_str(e.when), width, limit)));
        }
    }
}

/// Each run of adjacent equal days yields one separator: where the
/// events' days are grouped (equal days always adjacent, as they are when
/// the events are sorted by instant) and the day in force is not among
/// them, the separator days are distinct and are exactly the days
/// present, in order of first appearance.
pub proof fn lemma_separators_once(prev: Seq<char>, days: Seq<Seq<char>>)
    requires
        forall|i: int, j: int, k: int|
            0 <= i < j < k < days.len() && days[i] == days[k] ==> days[j] == days[i],
        forall|k: int| 0 <= k < days.len() ==> days[k] != prev,
    ensures
        forall|i: int, j: int|
            0 <= i < j < dedup_adjacent(prev, days).len()
                ==> dedup_adjacent(prev, days)[i] != dedup_adjacent(prev, days)[j],
        forall|d: Seq<char>|
            #[trigger] dedup_adjacent(prev, days).contains(d) <==> days.contains(d),
{
    lemma_dedup_grouped(prev, days);
    assert forall|d: Seq<char>| days.contains(d) implies #[trigger] dedup_adjacent(
        prev,
        days,
    ).contains(d) by {
        let v = choose|v: int| 0 <= v < days.len() && days[v] == d;
        assert(d != prev);
    }
}

proof fn lemma_dedup_grouped(prev: Seq<char>, days: Seq<Seq<char>>)
    requires
        forall|i: int, j: int, k: int|
            0 <= i < j < k < days.len() && days[i] == days[k] ==> days[j] == days[i],
        forall|i: int, j: int| 0 <= j < i < days.len() && days[i] == prev ==> days[j] == prev,
    ensures
        forall|i: int, j: int|
            0 <= i < j < dedup_adjacent(prev, days).len()
                ==> dedup_adjacent(prev, days)[i] != dedup_adjacent(prev, days)[j],
        forall|d: Seq<char>|
            #[trigger] dedup_adjacent(prev, days).contains(d) ==> d != prev && days.contains(d),
        forall|d: Seq<char>|
            days.contains(d) && d != prev ==> #[trigger] dedup_adjacent(prev, days).contains(d),
    decreases days.len(),
{
    if days.len() == 0 {
    } else {
        let d0 = days[0];
        let rest = days.drop_first();
        assert(forall|i: int, j: int, k: int|
            0 <= i < j < k < rest.len() && rest[i] == rest[k] ==> rest[j] == rest[i]) by {
            assert(forall|i: int, j: int, k: int|
                0 <= i < j < k < rest.len() && rest[i] == rest[k] ==> days[i + 1] == days[k + 1]
                    && days[i + 1] == rest[i] && days[j + 1] == rest[j]);
        }
        if d0 == prev {
            assert forall|i: int, j: int|
                0 <= j < i < rest.len() && rest[i] == prev implies rest[j] == prev by {
                assert(days[i + 1] == prev);
                assert(days[j + 1] == prev);
            }
            lemma_dedup_grouped(prev, rest);
            let whole = dedup_adjacent(prev, days);
            assert(whole == dedup_adjacent(prev, rest));
            assert forall|d: Seq<char>| #[trigger] whole.contains(d) implies d != prev
                && days.contains(d) by {
                assert(rest.contains(d));
                let v = choose|v: int| 0 <= v < rest.len() && rest[v] == d;
                assert(days[v + 1] == d);
            }
            assert forall|d: Seq<char>| days.contains(d) && d != prev implies #[trigger] whole
                .contains(d) by {
                let v = choose|v: int| 0 <= v < days.len() && days[v] == d;
                assert(rest[v - 1] == d);
            }
        } else {
            assert forall|i: int, j: int|
                0 <= j < i < rest.len() && rest[i] == d0 implies rest[j] == d0 by {
                assert(days[i + 1] == d0);
                assert(days[0] == d0);
                assert(days[j + 1] == d0);
            }
            lemma_dedup_grouped(d0, rest);
            let r = dedup_adjacent(d0, rest);
            let whole = dedup_adjacent(prev, days);
            assert(whole == seq![d0] + r);
            assert(forall|k: int| 0 <= k < days.len() ==> days[k] != prev) by {
                assert forall|k: int| 0 <= k < days.len() implies days[k] != prev by {
                    if k > 0 && days[k] == prev {
                        assert(days[0] == prev);
                    }
                }
            }
            assert forall|i: int, j: int| 0 <= i < j < whole.len() implies whole[i]
                != whole[j] by {
                assert(whole[j] == r[j - 1]);
                if i == 0 {
                    assert(r.contains(r[j - 1]));
                    assert(r[j - 1] != d0);
                } else {
                    assert(whole[i] == r[i - 1]);
                }
            }
            assert forall|d: Seq<char>| #[trigger] whole.contains(d) implies d != prev
                && days.contains(d) by {
                let w = choose|w: int| 0 <= w < whole.len() && whole[w] == d;
                if w == 0 {
                    assert(days[0] == d0);
                } else {
                    assert(r.contains(d));
                    let v = choose|v: int| 0 <= v < rest.len() && rest[v] == d;
                    assert(days[v + 1] == d);
                }
            }
            assert forall|d: Seq<char>| days.contains(d) && d != prev implies #[trigger] whole
                .contains(d) by {
                let v = choose|v: int| 0 <= v < days.len() && days[v] == d;
                if d == d0 {
                    assert(whole[0] == d0);
                } else {
                    assert(rest[v - 1] == d);
                    assert(r.contains(d));
                    let w = choose|w: int| 0 <= w < r.len() && r[w] == d;
                    assert(whole[w + 1] == d);
                }
            }
        }
    }
}

/// Truncation prints exactly the configured number of lines: with a limit
/// of zero or at least the wrapped line count, every wrapped line; with a
/// positive limit below the count, exactly the first `limit` lines.
pub proof fn lemma_body_truncation(what: Seq<char>, width: usize, limit: usize)
    ensures
        limit == 0 || limit >= wrap_of(what, width).len() ==> body_lines(what, width, limit)
            == wrap_of(what, width),
        0 < limit < wrap_of(what, width).len() ==> body_lines(what, width, limit) == wrap_of(
            what,
            width,
        ).take(limit as int) && body_lines(what, width, limit).len() == limit,
{
}

} // verus!
