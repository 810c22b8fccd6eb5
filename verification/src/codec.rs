//! The structured renderer and its inverse: the sorted event collection as
//! an array-of-objects document, one object per event with fields `url`,
//! `when`, `who`, `category`, `what` in the aggregator's order, and a
//! parser that reads such a document back. Rendering then parsing returns
//! the events unchanged.

use vstd::prelude::*;
use crate::aggregate::models;
use crate::event::{Event, EventModel};
use crate::strutil::push_char;
use crate::time::{parse_rfc3339, rfc3339_epoch};

verus! {

/// The escaped form of one character inside a quoted value: quote,
/// backslash, newline, carriage return and tab get a backslash code;
/// every other character stands for itself.
pub open spec fn esc_char(c: char) -> Seq<char> {
    if c == '"' {
        seq!['\\', '"']
    } else if c == '\\' {
        seq!['\\', '\\']
    } else if c == '\n' {
        seq!['\\', 'n']
    } else if c == '\r' {
        seq!['\\', 'r']
    } else if c == '\t' {
        seq!['\\', 't']
    } else {
        seq![c]
    }
}

/// The escaped form of a whole value.
pub open spec fn esc(s: Seq<char>) -> Seq<char>
    decreases s.len(),
{
    if s.len() == 0 {
        s
    } else {
        esc(s.drop_last()) + esc_char(s.last())
    }
}

/// The character a backslash code denotes; `None` for a code the renderer
/// never writes.
pub open spec fn esc_code(c: char) -> Option<char> {
    if c == '"' {
        Some('"')
    } else if c == '\\' {
        Some('\\')
    } else if c == 'n' {
        Some('\n')
    } else if c == 'r' {
        Some('\r')
    } else if c == 't' {
        Some('\t')
    } else {
        None
    }
}

/// Reads a quoted value from the front of `s` (the opening quote already
/// consumed): the decoded content and the index just past the closing
/// quote.
pub open spec fn unesc_prefix(s: Seq<char>) -> Option<(Seq<char>, int)>
    decreases s.len(),
{
    if s.len() == 0 {
        None
    } else if s[0] == '"' {
        Some((Seq::<char>::empty(), 1))
    } else if s[0] == '\\' {
        if s.len() < 2 {
            None
        } else {
            match esc_code(s[1]) {
                Some(c) => match unesc_prefix(s.skip(2)) {
                    Some(r) => Some((seq![c] + r.0, r.1 + 2)),
                    None => None,
                },
                None => None,
            }
        }
    } else {
        match unesc_prefix(s.skip(1)) {
            Some(r) => Some((seq![s[0]] + r.0, r.1 + 1)),
            None => None,
        }
    }
}

proof fn lemma_esc_head(s: Seq<char>)
    requires
        s.len() > 0,
    ensures
        esc(s) == esc_char(s[0]) + esc(s.drop_first()),
    decreases s.len(),
{
    if s.len() == 1 {
        assert(s.drop_last() =~= Seq::<char>::empty());
        assert(s.drop_first() =~= Seq::<char>::empty());
        assert(esc(s) =~= esc_char(s[0]) + esc(s.drop_first()));
    } else {
        lemma_esc_head(s.drop_last());
        assert(s.drop_last().drop_first() =~= s.drop_first().drop_last());
        assert(s.drop_first().last() == s.last());
        assert(s.drop_last()[0] == s[0]);
        assert(esc(s) =~= esc_char(s[0]) + esc(s.drop_first()));
    }
}

/// Decoding inverts escaping: a quoted value rendered as `esc(content)`
/// followed by the closing quote and anything after reads back as exactly
/// `content`, with the cursor just past the closing quote.
pub proof fn lemma_unesc_esc(content: Seq<char>, rest: Seq<char>)
    ensures
        unesc_prefix(esc(content) + seq!['"'] + rest) == Some::<(Seq<char>, int)>(
            (content, esc(content).len() as int + 1),
        ),
    decreases content.len(),
{
    let s = esc(content) + seq!['"'] + rest;
    if content.len() == 0 {
        assert(s[0] == '"');
        assert(content =~= Seq::<char>::empty());
    } else {
        lemma_esc_head(content);
        let c0 = content[0];
        lemma_unesc_esc(content.drop_first(), rest);
        if c0 == '"' || c0 == '\\' || c0 == '\n' || c0 == '\r' || c0 == '\t' {
            assert(esc_char(c0).len() == 2 && esc_char(c0)[0] == '\\');
            assert(s[0] == '\\');
            assert(s[1] == esc_char(c0)[1]);
            assert(esc_code(esc_char(c0)[1]) == Some(c0));
            assert(s.len() >= 2);
            assert(s.skip(2) =~= esc(content.drop_first()) + seq!['"'] + rest);
            assert(seq![c0] + content.drop_first() =~= content);
        } else {
            assert(esc_char(c0) =~= seq![c0]);
            assert(s[0] == c0);
            assert(s[0] != '"' && s[0] != '\\');
            assert(s.skip(1) =~= esc(content.drop_first()) + seq!['"'] + rest);
            assert(seq![c0] + content.drop_first() =~= content);
        }
    }
}

/// The key fragment that opens an object and its `url` value.
pub open spec fn f_url() -> Seq<char> {
    "{\"url\":\""@
}

/// The key fragment between the `url` and `when` values.
pub open spec fn f_when() -> Seq<char> {
    ",\"when\":\""@
}

/// The key fragment between the `when` and `who` values.
pub open spec fn f_who() -> Seq<char> {
    ",\"who\":\""@
}

/// The key fragment between the `who` and `category` values.
pub open spec fn f_cat() -> Seq<char> {
    ",\"category\":\""@
}

/// The key fragment between the `category` and `what` values.
pub open spec fn f_what() -> Seq<char> {
    ",\"what\":\""@
}

/// Whether `s` starts with `lit`.
pub open spec fn expect(s: Seq<char>, lit: Seq<char>) -> bool {
    lit.len() <= s.len() && s.take(lit.len() as int) == lit
}

/// Reads one `"key":"value"` field from the front of `s`: the decoded
/// value and the index just past its closing quote.
pub open spec fn parse_field(s: Seq<char>, key: Seq<char>) -> Option<(Seq<char>, int)> {
    if expect(s, key) {
        match unesc_prefix(s.skip(key.len() as int)) {
            Some(r) => if 0 <= r.1 {
                Some((r.0, key.len() + r.1))
            } else {
                None
            },
            None => None,
        }
    } else {
        None
    }
}

/// The tail of an object from its `what` field on.
pub open spec fn obj_tail_what(e: EventModel) -> Seq<char> {
    f_what() + esc(e.what) + seq!['"'] + seq!['}']
}

/// The tail of an object from its `category` field on.
pub open spec fn obj_tail_cat(e: EventModel) -> Seq<char> {
    f_cat() + esc(e.category) + seq!['"'] + obj_tail_what(e)
}

/// The tail of an object from its `who` field on.
pub open spec fn obj_tail_who(e: EventModel) -> Seq<char> {
    f_who() + esc(e.who) + seq!['"'] + obj_tail_cat(e)
}

/// The tail of an object from its `when` field on.
pub open spec fn obj_tail_when(e: EventModel) -> Seq<char> {
    f_when() + esc(e.when_text) + seq!['"'] + obj_tail_who(e)
}

/// One event as an object: the five fields in fixed order, each value
/// escaped and quoted. `when` is carried as the event's timestamp text.
pub open spec fn obj_of(e: EventModel) -> Seq<char> {
    f_url() + esc(e.url) + seq!['"'] + obj_tail_when(e)
}

/// Reads one object from the front of `s`: the event and the index just
/// past its closing brace. The event's instant is parsed from its `when`
/// text; an object whose `when` text does not parse is refused.
pub open spec fn parse_obj(s: Seq<char>) -> Option<(EventModel, int)> {
    match parse_field(s, f_url()) {
        Some(r1) => if 0 <= r1.1 <= s.len() {
            let s1 = s.skip(r1.1);
            match parse_field(s1, f_when()) {
                Some(r2) => if 0 <= r2.1 <= s1.len() {
                    let s2 = s1.skip(r2.1);
                    match parse_field(s2, f_who()) {
                        Some(r3) => if 0 <= r3.1 <= s2.len() {
                            let s3 = s2.skip(r3.1);
                            match parse_field(s3, f_cat()) {
                                Some(r4) => if 0 <= r4.1 <= s3.len() {
                                    let s4 = s3.skip(r4.1);
                                    match parse_field(s4, f_what()) {
                                        Some(r5) => if 0 <= r5.1 < s4.len() && s4[r5.1] == '}' {
                                            match rfc3339_epoch(r2.0) {
                                                Some(t) => Some(
                                                    (
                                                        EventModel {
                                                            who: r3.0,
                                                            when: t,
                                                            when_text: r2.0,
                                                            category: r4.0,
                                                            what: r5.0,
                                                            url: r1.0,
                                                        },
                                                        r1.1 + r2.1 + r3.1 + r4.1 + r5.1 + 1,
                                                    ),
                                                )
                                                ,
                                                None => None,
                                            }
                                        } else {
                                            None
                                        },
                                        None => None,
                                    }
                                } else {
                                    None
                                },
                                None => None,
                            }
                        } else {
                            None
                        },
                        None => None,
                    }
                } else {
                    None
                },
                None => None,
            }
        } else {
            None
        },
        None => None,
    }
}

/// The objects of a nonempty event sequence, comma-separated.
pub open spec fn objs_of(events: Seq<EventModel>) -> Seq<char>
    decreases events.len(),
{
    if events.len() == 0 {
        Seq::<char>::empty()
    } else if events.len() == 1 {
        obj_of(events[0])
    } else {
        obj_of(events[0]) + seq![','] + objs_of(events.drop_first())
    }
}

/// Reads one or more comma-separated objects and the closing bracket from
/// the front of `s`: the events and the index just past the bracket.
pub open spec fn parse_items(s: Seq<char>) -> Option<(Seq<EventModel>, int)>
    decreases s.len(),
{
    match parse_obj(s) {
        Some(r) => if !(0 <= r.1 < s.len()) {
            None
        } else if s[r.1] == ',' {
            match parse_items(s.skip(r.1 + 1)) {
                Some(t) => Some((seq![r.0] + t.0, r.1 + 1 + t.1)),
                None => None,
            }
        } else if s[r.1] == ']' {
            Some((seq![r.0], r.1 + 1))
        } else {
            None
        },
        None => None,
    }
}

/// The whole document: the objects of the sorted events inside brackets.
pub open spec fn doc_of(events: Seq<EventModel>) -> Seq<char> {
    if events.len() == 0 {
        seq!['[', ']']
    } else {
        seq!['['] + objs_of(events) + seq![']']
    }
}

/// Reads a whole document; `None` unless every character is consumed.
pub open spec fn parse_doc(s: Seq<char>) -> Option<Seq<EventModel>> {
    if s.len() < 1 || s[0] != '[' {
        None
    } else if s.len() == 2 && s[1] == ']' {
        Some(Seq::<EventModel>::empty())
    } else {
        match parse_items(s.skip(1)) {
            Some(r) => if 1 + r.1 == s.len() {
                Some(r.0)
            } else {
                None
            },
            None => None,
        }
    }
}

proof fn lemma_parse_field_of(key: Seq<char>, content: Seq<char>, rest: Seq<char>)
    ensures
        ({
            let s = key + esc(content) + seq!['"'] + rest;
            let l = key.len() as int + esc(content).len() as int + 1;
            &&& parse_field(s, key) == Some::<(Seq<char>, int)>((content, l))
            &&& s.skip(l) == rest
            &&& s.len() == l + rest.len()
        }),
{
    let s = key + esc(content) + seq!['"'] + rest;
    let l = key.len() as int + esc(content).len() as int + 1;
    assert(s.take(key.len() as int) =~= key);
    assert(s.skip(key.len() as int) =~= esc(content) + seq!['"'] + rest);
    lemma_unesc_esc(content, rest);
    assert(s.skip(l) =~= rest);
}

/// Parsing inverts rendering for one object, for an event whose instant
/// is what its timestamp text parses to.
#[verifier::rlimit(100)]
#[verifier::spinoff_prover]
proof fn lemma_parse_obj_of(e: EventModel, rest: Seq<char>)
    requires
        e.wf(),
    ensures
        parse_obj(obj_of(e) + rest) == Some::<(EventModel, int)>((e, obj_of(e).len() as int)),
{
    let s = obj_of(e) + rest;
    let u1 = obj_tail_when(e) + rest;
    let u2 = obj_tail_who(e) + rest;
    let u3 = obj_tail_cat(e) + rest;
    let u4 = obj_tail_what(e) + rest;
    let u5 = seq!['}'] + rest;
    assert(s =~= f_url() + esc(e.url) + seq!['"'] + u1);
    lemma_parse_field_of(f_url(), e.url, u1);
    let l1 = f_url().len() as int + esc(e.url).len() as int + 1;
    assert(u1 =~= f_when() + esc(e.when_text) + seq!['"'] + u2);
    lemma_parse_field_of(f_when(), e.when_text, u2);
    let l2 = f_when().len() as int + esc(e.when_text).len() as int + 1;
    assert(u2 =~= f_who() + esc(e.who) + seq!['"'] + u3);
    lemma_parse_field_of(f_who(), e.who, u3);
    let l3 = f_who().len() as int + esc(e.who).len() as int + 1;
    assert(u3 =~= f_cat() + esc(e.category) + seq!['"'] + u4);
    lemma_parse_field_of(f_cat(), e.category, u4);
    let l4 = f_cat().len() as int + esc(e.category).len() as int + 1;
    assert(u4 =~= f_what() + esc(e.what) + seq!['"'] + u5);
    lemma_parse_field_of(f_what(), e.what, u5);
    let l5 = f_what().len() as int + esc(e.what).len() as int + 1;
    assert(u4[l5] == u5[0]);
    assert(u5[0] == '}');
    let parsed = parse_obj(s);
    assert(s.skip(l1) == u1 && u1.skip(l2) == u2 && u2.skip(l3) == u3 && u3.skip(l4) == u4);
    assert(parsed is Some);
    assert(parsed->Some_0.0 =~= e);
    assert(parsed->Some_0.1 == l1 + l2 + l3 + l4 + l5 + 1);
    assert(obj_of(e).len() == l1 + l2 + l3 + l4 + l5 + 1);
}

/// Parsing inverts rendering for a nonempty comma-separated run of
/// objects followed by the closing bracket.
#[verifier::rlimit(100)]
#[verifier::spinoff_prover]
proof fn lemma_parse_items_of(events: Seq<EventModel>)
    requires
        events.len() > 0,
        forall|k: int| 0 <= k < events.len() ==> (#[trigger] events[k]).wf(),
    ensures
        parse_items(objs_of(events) + seq![']']) == Some::<(Seq<EventModel>, int)>(
            (events, objs_of(events).len() as int + 1),
        ),
    decreases events.len(),
{
    let s = objs_of(events) + seq![']'];
    if events.len() == 1 {
        lemma_parse_obj_of(events[0], seq![']']);
        assert(s =~= obj_of(events[0]) + seq![']']);
        let j = obj_of(events[0]).len() as int;
        assert(s[j] == ']');
        assert(seq![events[0]] =~= events);
    } else {
        let e0 = events[0];
        let tail = events.drop_first();
        assert(tail.len() > 0);
        assert(forall|k: int| 0 <= k < tail.len() ==> (#[trigger] tail[k]).wf());
        lemma_parse_items_of(tail);
        let tail_chars = objs_of(tail) + seq![']'];
        lemma_parse_obj_of(e0, seq![','] + tail_chars);
        assert(s =~= obj_of(e0) + (seq![','] + tail_chars));
        let j = obj_of(e0).len() as int;
        assert(s[j] == ',');
        assert(s.skip(j + 1) =~= tail_chars);
        assert(seq![e0] + tail =~= events);
        assert(objs_of(events).len() == obj_of(e0).len() + 1 + objs_of(tail).len());
    }
}

/// Structured round trip: rendering a collection of well-formed events to
/// the structured document and parsing it back yields the same events —
/// the same `who`, `category`, `what`, `url`, timestamp text and instant,
/// in the same order.
pub proof fn lemma_doc_round_trip(events: Seq<EventModel>)
    requires
        forall|k: int| 0 <= k < events.len() ==> (#[trigger] events[k]).wf(),
    ensures
        parse_doc(doc_of(events)) == Some(events),
{
    let s = doc_of(events);
    if events.len() == 0 {
        assert(s[0] == '[' && s[1] == ']');
        assert(parse_doc(s) == Some(Seq::<EventModel>::empty()));
        assert(events =~= Seq::<EventModel>::empty());
    } else {
        lemma_parse_items_of(events);
        assert(s[0] == '[');
        assert(s.skip(1) =~= objs_of(events) + seq![']']);
        reveal_strlit("{\"url\":\"");
        assert(f_url().len() == 8);
        if events.len() == 1 {
            assert(objs_of(events) == obj_of(events[0]));
        }
        assert(obj_of(events[0]).len() >= 8);
        assert(objs_of(events).len() >= 8);
        assert(s.len() > 2);
    }
}


proof fn lemma_objs_snoc(events: Seq<EventModel>)
    requires
        events.len() >= 2,
    ensures
        objs_of(events) == objs_of(events.drop_last()) + seq![','] + obj_of(events.last()),
    decreases events.len(),
{
    if events.len() == 2 {
        assert(events.drop_first() =~= seq![events[1]]);
        assert(events.drop_last() =~= seq![events[0]]);
        assert(events.drop_first().len() == 1);
        assert(objs_of(events) =~= objs_of(events.drop_last()) + seq![','] + obj_of(
            events.last(),
        ));
    } else {
        lemma_objs_snoc(events.drop_first());
        assert(events.drop_first().drop_last() =~= events.drop_last().drop_first());
        assert(events.drop_last()[0] == events[0]);
        assert(events.drop_first().last() == events.last());
        assert(objs_of(events) == obj_of(events[0]) + seq![','] + objs_of(events.drop_first()));
        assert(events.drop_last().len() >= 2);
        assert(objs_of(events.drop_last()) == obj_of(events.drop_last()[0]) + seq![','] + objs_of(
            events.drop_last().drop_first(),
        ));
        assert(objs_of(events) =~= objs_of(events.drop_last()) + seq![','] + obj_of(
            events.last(),
        ));
    }
}

/// Escapes one value for inclusion in a quoted document string.
fn escape_string(s: &str) -> (r: String)
    ensures
        r@ == esc(s@),
{
    let n = s.unicode_len();
    let mut out = String::new();
    let mut i: usize = 0;
    while i < n
        invariant
            i <= n,
            n == s@.len(),
            out@ == esc(s@.take(i as int)),
        decreases n - i,
    {
        let c = s.get_char(i);
        let ghost prev = out@;
        if c == '"' {
            push_char(&mut out, '\\');
            push_char(&mut out, '"');
        } else if c == '\\' {
            push_char(&mut out, '\\');
            push_char(&mut out, '\\');
        } else if c == '\n' {
            push_char(&mut out, '\\');
            push_char(&mut out, 'n');
        } else if c == '\r' {
            push_char(&mut out, '\\');
            push_char(&mut out, 'r');
        } else if c == '\t' {
            push_char(&mut out, '\\');
            push_char(&mut out, 't');
        } else {
            push_char(&mut out, c);
        }
        proof {
            assert(s@.take(i + 1).drop_last() =~= s@.take(i as int));
            assert(s@.take(i + 1).last() == s@[i as int]);
            assert(out@ =~= prev + esc_char(s@[i as int]));
        }
        i = i + 1;
    }
    proof {
        assert(s@.take(n as int) =~= s@);
    }
    out
}

/// Renders one event as its object.
#[verifier::rlimit(100)]
fn obj_string(e: &Event) -> (r: String)
    ensures
        r@ == obj_of(e@),
{
    let mut out = String::from_str("{\"url\":\"");
    out.append(escape_string(e.url.as_str()).as_str());
    push_char(&mut out, '"');
    out.append(",\"when\":\"");
    out.append(escape_string(e.when_text.as_str()).as_str());
    push_char(&mut out, '"');
    out.append(",\"who\":\"");
    out.append(escape_string(e.who.as_str()).as_str());
    push_char(&mut out, '"');
    out.append(",\"category\":\"");
    out.append(escape_string(e.category.as_str()).as_str());
    push_char(&mut out, '"');
    out.append(",\"what\":\"");
    out.append(escape_string(e.what.as_str()).as_str());
    push_char(&mut out, '"');
    push_char(&mut out, '}');
    proof {
        assert(out@ =~= obj_of(e@));
    }
    out
}

/// Renders the sorted event collection as the structured document. Where
/// every event is well formed, parsing the result yields the collection
/// back unchanged.
pub fn render_structured(events: &Vec<Event>) -> (r: String)
    ensures
        r@ == doc_of(models(events@)),
        (forall|k: int| 0 <= k < models(events@).len() ==> (#[trigger] models(events@)[k]).wf())
            ==> parse_doc(r@) == Some(models(events@)),
{
    let ghost ms = models(events@);
    let mut out = String::new();
    push_char(&mut out, '[');
    if events.len() == 0 {
        push_char(&mut out, ']');
        proof {
            assert(out@ =~= doc_of(ms));
            lemma_doc_round_trip(ms);
        }
        return out;
    }
    let first = obj_string(&events[0]);
    out.append(first.as_str());
    proof {
        assert(ms[0] == events@[0]@);
        assert(ms.take(1)[0] == ms[0]);
        assert(ms.take(1).len() == 1);
        assert(out@ =~= seq!['['] + objs_of(ms.take(1)));
    }
    let mut i: usize = 1;
    while i < events.len()
        invariant
            1 <= i <= events.len(),
            ms == models(events@),
            ms.len() == events@.len(),
            out@ == seq!['['] + objs_of(ms.take(i as int)),
        decreases events.len() - i,
    {
        push_char(&mut out, ',');
        let o = obj_string(&events[i]);
        out.append(o.as_str());
        proof {
            assert(ms[i as int] == events@[i as int]@);
            assert(ms.take(i + 1).drop_last() =~= ms.take(i as int));
            assert(ms.take(i + 1).last() == ms[i as int]);
            lemma_objs_snoc(ms.take(i + 1));
            assert(out@ =~= seq!['['] + objs_of(ms.take(i + 1)));
        }
        i = i + 1;
    }
    push_char(&mut out, ']');
    proof {
        assert(ms.take(ms.len() as int) =~= ms);
        assert(out@ =~= doc_of(ms));
        if forall|k: int| 0 <= k < ms.len() ==> (#[trigger] ms[k]).wf() {
            lemma_doc_round_trip(ms);
        }
    }
    out
}

fn unesc_exec(s: &str, i: usize) -> (r: Option<(String, usize)>)
    requires
        i <= s@.len(),
    ensures
        match unesc_prefix(s@.skip(i as int)) {
            None => r is None,
            Some(t) => {
                &&& r is Some
                &&& r->Some_0.0@ == t.0
                &&& r->Some_0.1 == i + t.1
                &&& i < r->Some_0.1 <= s@.len()
            },
        },
    decreases s@.len() - i,
{
    let n = s.unicode_len();
    if i == n {
        return None;
    }
    let c = s.get_char(i);
    proof {
        assert(s@.skip(i as int)[0] == s@[i as int]);
    }
    if c == '"' {
        return Some((String::new(), i + 1));
    }
    if c == '\\' {
        if i + 1 == n {
            return None;
        }
        let code = s.get_char(i + 1);
        proof {
            assert(s@.skip(i as int)[1] == s@[i + 1]);
        }
        let dec: char;
        if code == '"' {
            dec = '"';
        } else if code == '\\' {
            dec = '\\';
        } else if code == 'n' {
            dec = '\n';
        } else if code == 'r' {
            dec = '\r';
        } else if code == 't' {
            dec = '\t';
        } else {
            return None;
        }
        proof {
            assert(esc_code(s@[i + 1]) == Some(dec));
            assert(s@.skip(i as int).skip(2) =~= s@.skip(i + 2));
        }
        match unesc_exec(s, i + 2) {
            None => None,
            Some((tail, j)) => {
                let mut out = String::new();
                push_char(&mut out, dec);
                out.append(tail.as_str());
                proof {
                    assert(out@ =~= seq![dec] + tail@);
                }
                Some((out, j))
            },
        }
    } else {
        proof {
            assert(s@.skip(i as int).skip(1) =~= s@.skip(i + 1));
        }
        match unesc_exec(s, i + 1) {
            None => None,
            Some((tail, j)) => {
                let mut out = String::new();
                push_char(&mut out, c);
                out.append(tail.as_str());
                proof {
                    assert(out@ =~= seq![s@[i as int]] + tail@);
                }
                Some((out, j))
            },
        }
    }
}

fn match_at(s: &str, i: usize, lit: &str) -> (b: bool)
    requires
        i <= s@.len(),
    ensures
        b == expect(s@.skip(i as int), lit@),
{
    let n = s.unicode_len();
    let m = lit.unicode_len();
    if m > n - i {
        return false;
    }
    let mut k: usize = 0;
    while k < m
        invariant
            k <= m,
            m == lit@.len(),
            n == s@.len(),
            i <= n,
            m <= n - i,
            forall|t: int| 0 <= t < k ==> s@[i + t] == lit@[t],
        decreases m - k,
    {
        if s.get_char(i + k) != lit.get_char(k) {
            proof {
                assert(s@.skip(i as int).take(m as int)[k as int] == s@[i + k]);
            }
            return false;
        }
        k = k + 1;
    }
    proof {
        assert(s@.skip(i as int).take(m as int) =~= lit@);
    }
    true
}

fn parse_field_exec(s: &str, i: usize, key: &str) -> (r: Option<(String, usize)>)
    requires
        i <= s@.len(),
    ensures
        match parse_field(s@.skip(i as int), key@) {
            None => r is None,
            Some(t) => {
                &&& r is Some
                &&& r->Some_0.0@ == t.0
                &&& r->Some_0.1 == i + t.1
                &&& i < r->Some_0.1 <= s@.len()
            },
        },
{
    let n = s.unicode_len();
    if !match_at(s, i, key) {
        return None;
    }
    let m = key.unicode_len();
    proof {
        assert(i + m <= n);
        assert(s@.skip(i as int).skip(m as int) =~= s@.skip(i + m));
    }
    match unesc_exec(s, i + m) {
        None => None,
        Some((content, j)) => Some((content, j)),
    }
}

#[verifier::rlimit(100)]
#[verifier::spinoff_prover]
fn parse_obj_exec(s: &str, i: usize) -> (r: Option<(Event, usize)>)
    requires
        i <= s@.len(),
    ensures
        match parse_obj(s@.skip(i as int)) {
            None => r is None,
            Some(t) => {
                &&& r is Some
                &&& r->Some_0.0@ == t.0
                &&& r->Some_0.0@.wf()
                &&& r->Some_0.1 == i + t.1
                &&& i < r->Some_0.1 <= s@.len()
            },
        },
{
    let n = s.unicode_len();
    let (url, i1) = match parse_field_exec(s, i, "{\"url\":\"") {
        Some(p) => p,
        None => {
            return None;
        },
    };
    proof {
        assert(s@.skip(i as int).skip(i1 - i) =~= s@.skip(i1 as int));
    }
    let (when_text, i2) = match parse_field_exec(s, i1, ",\"when\":\"") {
        Some(p) => p,
        None => {
            return None;
        },
    };
    proof {
        assert(s@.skip(i1 as int).skip(i2 - i1) =~= s@.skip(i2 as int));
    }
    let (who, i3) = match parse_field_exec(s, i2, ",\"who\":\"") {
        Some(p) => p,
        None => {
            return None;
        },
    };
    proof {
        assert(s@.skip(i2 as int).skip(i3 - i2) =~= s@.skip(i3 as int));
    }
    let (category, i4) = match parse_field_exec(s, i3, ",\"category\":\"") {
        Some(p) => p,
        None => {
            return None;
        },
    };
    proof {
        assert(s@.skip(i3 as int).skip(i4 - i3) =~= s@.skip(i4 as int));
    }
    let (what, i5) = match parse_field_exec(s, i4, ",\"what\":\"") {
        Some(p) => p,
        None => {
            return None;
        },
    };
    if i5 == n {
        return None;
    }
    proof {
        assert(s@.skip(i4 as int)[i5 - i4] == s@[i5 as int]);
    }
    let cc = s.get_char(i5);
    if cc != '}' {
        return None;
    }
    let when = match parse_rfc3339(when_text.as_str()) {
        Some(t) => t,
        None => {
            return None;
        },
    };
    let ev = Event { who, when, when_text, category, what, url };
    proof {
        assert(ev@ =~= parse_obj(s@.skip(i as int))->Some_0.0);
    }
    Some((ev, i5 + 1))
}

fn parse_items_exec(s: &str, i: usize) -> (r: Option<(Vec<Event>, usize)>)
    requires
        i <= s@.len(),
    ensures
        match parse_items(s@.skip(i as int)) {
            None => r is None,
            Some(t) => {
                &&& r is Some
                &&& models(r->Some_0.0@) == t.0
                &&& forall|k: int|
                    0 <= k < models(r->Some_0.0@).len() ==> (#[trigger] models(
                        r->Some_0.0@,
                    )[k]).wf()
                &&& r->Some_0.1 == i + t.1
                &&& i < r->Some_0.1 <= s@.len()
            },
        },
    decreases s@.len() - i,
{
    let (ev, j) = match parse_obj_exec(s, i) {
        Some(p) => p,
        None => {
            return None;
        },
    };
    let n = s.unicode_len();
    if j == n {
        return None;
    }
    let c = s.get_char(j);
    proof {
        assert(s@.skip(i as int)[j - i] == s@[j as int]);
    }
    if c == ',' {
        proof {
            assert(s@.skip(i as int).skip(j - i + 1) =~= s@.skip(j + 1));
        }
        match parse_items_exec(s, j + 1) {
            None => None,
            Some((rest, k)) => {
                let mut rest = rest;
                let mut v: Vec<Event> = Vec::new();
                let ghost rm = models(rest@);
                v.push(ev);
                v.append(&mut rest);
                proof {
                    assert(models(v@) =~= seq![ev@] + rm);
                }
                Some((v, k))
            },
        }
    } else if c == ']' {
        let mut v: Vec<Event> = Vec::new();
        v.push(ev);
        proof {
            assert(models(v@) =~= seq![ev@]);
        }
        Some((v, j + 1))
    } else {
        None
    }
}

/// Parses a structured document back into its events; `None` unless the
/// whole text is a document the structured renderer could have produced
/// (with every `when` text a valid RFC 3339 timestamp).
pub fn parse_structured(s: &str) -> (r: Option<Vec<Event>>)
    ensures
        match parse_doc(s@) {
            None => r is None,
            Some(es) => {
                &&& r is Some
                &&& models(r->Some_0@) == es
                &&& forall|k: int|
                    0 <= k < models(r->Some_0@).len() ==> (#[trigger] models(r->Some_0@)[k]).wf()
            },
        },
{
    let n = s.unicode_len();
    if n < 1 {
        return None;
    }
    if s.get_char(0) != '[' {
        return None;
    }
    if n == 2 && s.get_char(1) == ']' {
        let v: Vec<Event> = Vec::new();
        proof {
            assert(models(v@) =~= Seq::<EventModel>::empty());
        }
        return Some(v);
    }
    match parse_items_exec(s, 1) {
        None => None,
        Some((v, j)) => {
            if j == n {
                Some(v)
            } else {
                None
            }
        },
    }
}

} // verus!
