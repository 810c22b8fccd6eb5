//! The extractor: maps raw issue and comment records into canonical
//! [`Event`]s. An issue record yields exactly two events (title and body);
//! a comment record yields exactly one. A record whose needed timestamp
//! text is not valid RFC 3339 fails the whole extraction.

use vstd::prelude::*;
use crate::event::{Event, EventModel};
use crate::strutil::{dec_of, last_segment, last_path_segment, u64_to_dec, upper, upper_of};
use crate::time::{parse_rfc3339, rfc3339_epoch};

verus! {

/// A raw issue record, already reduced to the fields the timeline reads.
pub struct IssueRecord {
    pub state: String,
    pub created_at: String,
    pub updated_at: String,
    pub user_login: String,
    pub title: String,
    pub body: String,
    pub number: u64,
    pub html_url: String,
}

/// The model of an [`IssueRecord`].
pub struct IssueModel {
    pub state: Seq<char>,
    pub created_at: Seq<char>,
    pub updated_at: Seq<char>,
    pub user_login: Seq<char>,
    pub title: Seq<char>,
    pub body: Seq<char>,
    pub number: u64,
    pub html_url: Seq<char>,
}

impl View for IssueRecord {
    type V = IssueModel;

    open spec fn view(&self) -> IssueModel {
        IssueModel {
            state: self.state@,
            created_at: self.created_at@,
            updated_at: self.updated_at@,
            user_login: self.user_login@,
            title: self.title@,
            body: self.body@,
            number: self.number,
            html_url: self.html_url@,
        }
    }
}

/// A raw issue-comment record, reduced to the fields the timeline reads.
pub struct CommentRecord {
    pub user_login: String,
    pub body: String,
    pub updated_at: String,
    pub issue_url: String,
    pub html_url: String,
}

/// The model of a [`CommentRecord`].
pub struct CommentModel {
    pub user_login: Seq<char>,
    pub body: Seq<char>,
    pub updated_at: Seq<char>,
    pub issue_url: Seq<char>,
    pub html_url: Seq<char>,
}

impl View for CommentRecord {
    type V = CommentModel;

    open spec fn view(&self) -> CommentModel {
        CommentModel {
            user_login: self.user_login@,
            body: self.body@,
            updated_at: self.updated_at@,
            issue_url: self.issue_url@,
            html_url: self.html_url@,
        }
    }
}

/// The error of a failed extraction: a timestamp text that is not valid
/// RFC 3339.
#[derive(Debug)]
pub struct ExtractError {
    pub bad_timestamp: String,
}

/// The timestamp text the title event takes its instant from: `created_at`
/// for an open issue, `updated_at` otherwise (a closed issue's most
/// meaningful instant is its resolution).
pub open spec fn title_when_text(r: IssueModel) -> Seq<char> {
    if r.state == "open"@ {
        r.created_at
    } else {
        r.updated_at
    }
}

/// Whether both timestamps an issue record needs parse.
pub open spec fn issue_ok(r: IssueModel) -> bool {
    rfc3339_epoch(title_when_text(r)) is Some && rfc3339_epoch(r.created_at) is Some
}

/// The title event of an issue record: the issue title, categorized
/// `<STATE> <number>` with the lifecycle state upper-cased.
pub open spec fn issue_title_event(r: IssueModel) -> EventModel {
    EventModel {
        who: r.user_login,
        when: rfc3339_epoch(title_when_text(r)).unwrap(),
        when_text: title_when_text(r),
        category: upper_of(r.state) + " "@ + dec_of(r.number as int),
        what: r.title,
        url: r.html_url,
    }
}

/// The body event of an issue record: the issue body, always attributed to
/// the creation act (`OPEN <number>`, instant `created_at`).
pub open spec fn issue_body_event(r: IssueModel) -> EventModel {
    EventModel {
        who: r.user_login,
        when: rfc3339_epoch(r.created_at).unwrap(),
        when_text: r.created_at,
        category: "OPEN "@ + dec_of(r.number as int),
        what: r.body,
        url: r.html_url,
    }
}

/// Whether the timestamp a comment record needs parses.
pub open spec fn comment_ok(c: CommentModel) -> bool {
    rfc3339_epoch(c.updated_at) is Some
}

/// The event of a comment record: the comment body, categorized
/// `comment <number>` where the number is the last path segment of the
/// parent-issue reference URL.
pub open spec fn comment_event(c: CommentModel) -> EventModel {
    EventModel {
        who: c.user_login,
        when: rfc3339_epoch(c.updated_at).unwrap(),
        when_text: c.updated_at,
        category: "comment "@ + last_segment(c.issue_url),
        what: c.body,
        url: c.html_url,
    }
}

/// The timestamp text a failed issue extraction names: the title event's
/// where it does not parse, else `created_at`.
pub open spec fn issue_err_text(r: IssueModel) -> Seq<char> {
    if rfc3339_epoch(title_when_text(r)) is None {
        title_when_text(r)
    } else {
        r.created_at
    }
}

/// Extracts the two events of one issue record: the title event, then the
/// body event. Fails exactly where a needed timestamp does not parse, and
/// names the first offending text (the title event's, then `created_at`).
pub fn extract_issue_events(r: &IssueRecord) -> (out: Result<Vec<Event>, ExtractError>)
    ensures
        out is Ok <==> issue_ok(r@),
        out is Ok ==> {
            let v = out->Ok_0;
            &&& v@.len() == 2
            &&& v@[0]@ == issue_title_event(r@)
            &&& v@[1]@ == issue_body_event(r@)
            &&& v@[0]@.wf()
            &&& v@[1]@.wf()
        },
        out is Err ==> out->Err_0.bad_timestamp@ == issue_err_text(r@),
{
    let open_lit = String::from_str("open");
    let title_when: &String = if r.state == open_lit {
        &r.created_at
    } else {
        &r.updated_at
    };
    let title_epoch = match parse_rfc3339(title_when.as_str()) {
        Some(t) => t,
        None => {
            return Err(ExtractError { bad_timestamp: title_when.clone() });
        },
    };
    let body_epoch = match parse_rfc3339(r.created_at.as_str()) {
        Some(t) => t,
        None => {
            return Err(ExtractError { bad_timestamp: r.created_at.clone() });
        },
    };
    let num = u64_to_dec(r.number);
    let title_cat = upper(r.state.as_str()).concat(" ").concat(num.as_str());
    let body_cat = String::from_str("OPEN ").concat(num.as_str());
    let title_ev = Event {
        who: r.user_login.clone(),
        when: title_epoch,
        when_text: title_when.clone(),
        category: title_cat,
        what: r.title.clone(),
        url: r.html_url.clone(),
    };
    let body_ev = Event {
        who: r.user_login.clone(),
        when: body_epoch,
        when_text: r.created_at.clone(),
        category: body_cat,
        what: r.body.clone(),
        url: r.html_url.clone(),
    };
    let mut v: Vec<Event> = Vec::new();
    v.push(title_ev);
    v.push(body_ev);
    proof {
        assert(v@[0]@ =~= issue_title_event(r@));
        assert(v@[1]@ =~= issue_body_event(r@));
    }
    Ok(v)
}

/// Extracts the one event of a comment record. Fails exactly where its
/// `updated_at` does not parse.
pub fn extract_comment_event(c: &CommentRecord) -> (out: Result<Event, ExtractError>)
    ensures
        out is Ok <==> comment_ok(c@),
        out is Ok ==> out->Ok_0@ == comment_event(c@) && out->Ok_0@.wf(),
        out is Err ==> out->Err_0.bad_timestamp@ == c@.updated_at,
{
    let epoch = match parse_rfc3339(c.updated_at.as_str()) {
        Some(t) => t,
        None => {
            return Err(ExtractError { bad_timestamp: c.updated_at.clone() });
        },
    };
    let number = last_path_segment(c.issue_url.as_str());
    let cat = String::from_str("comment ").concat(number.as_str());
    let ev = Event {
        who: c.user_login.clone(),
        when: epoch,
        when_text: c.updated_at.clone(),
        category: cat,
        what: c.body.clone(),
        url: c.html_url.clone(),
    };
    proof {
        assert(ev@ =~= comment_event(c@));
    }
    Ok(ev)
}

} // verus!
