//! The three primary entity kinds (tasks, notes, concerns), the derived
//! search-index entry, and the closed sets of concern severities and
//! statuses, each with its mathematical view.

use vstd::prelude::*;

verus! {

/// Severity of a concern: a closed set, enforced at write time.
#[derive(Clone, Copy, PartialEq, Eq, Structural, Debug)]
pub enum Severity {
    Low,
    Medium,
    High,
}

/// Workflow status of a concern: a closed set, enforced at write time.
#[derive(Clone, Copy, PartialEq, Eq, Structural, Debug)]
pub enum Status {
    Open,
    InProgress,
    Resolved,
}

/// The kind of entity a search-index entry is derived from.
#[derive(Clone, Copy, PartialEq, Eq, Structural, Debug)]
pub enum ItemType {
    Task,
    Note,
    Concern,
}

/// The severity denoted by a stored token, if any.
pub open spec fn severity_of(s: Seq<char>) -> Option<Severity> {
    if s == "low"@ {
        Some(Severity::Low)
    } else if s == "medium"@ {
        Some(Severity::Medium)
    } else if s == "high"@ {
        Some(Severity::High)
    } else {
        None
    }
}

/// The status denoted by a stored token, if any.
pub open spec fn status_of(s: Seq<char>) -> Option<Status> {
    if s == "open"@ {
        Some(Status::Open)
    } else if s == "in_progress"@ {
        Some(Status::InProgress)
    } else if s == "resolved"@ {
        Some(Status::Resolved)
    } else {
        None
    }
}

impl Severity {
    /// The stored token for this severity.
    pub open spec fn token_spec(self) -> Seq<char> {
        match self {
            Severity::Low => "low"@,
            Severity::Medium => "medium"@,
            Severity::High => "high"@,
        }
    }

    /// Parses a stored severity token; returns `None` on any string
    /// outside the closed set.
    pub fn parse(s: &str) -> (r: Option<Severity>)
        ensures
            r == severity_of(s@),
            r matches Some(v) ==> v.token_spec() == s@,
    {
        let t = String::from_str(s);
        if t == String::from_str("low") {
            Some(Severity::Low)
        } else if t == String::from_str("medium") {
            Some(Severity::Medium)
        } else if t == String::from_str("high") {
            Some(Severity::High)
        } else {
            None
        }
    }

    /// The stored token, as an owned string.
    pub fn token(&self) -> (r: String)
        ensures
            r@ == self.token_spec(),
    {
        match self {
            Severity::Low => String::from_str("low"),
            Severity::Medium => String::from_str("medium"),
            Severity::High => String::from_str("high"),
        }
    }
}

impl Status {
    /// The stored token for this status.
    pub open spec fn token_spec(self) -> Seq<char> {
        match self {
            Status::Open => "open"@,
            Status::InProgress => "in_progress"@,
            Status::Resolved => "resolved"@,
        }
    }

    /// Parses a stored status token; returns `None` on any string outside
    /// the closed set.
    pub fn parse(s: &str) -> (r: Option<Status>)
        ensures
            r == status_of(s@),
            r matches Some(v) ==> v.token_spec() == s@,
    {
        let t = String::from_str(s);
        if t == String::from_str("open") {
            Some(Status::Open)
        } else if t == String::from_str("in_progress") {
            Some(Status::InProgress)
        } else if t == String::from_str("resolved") {
            Some(Status::Resolved)
        } else {
            None
        }
    }

    /// The stored token, as an owned string.
    pub fn token(&self) -> (r: String)
        ensures
            r@ == self.token_spec(),
    {
        match self {
            Status::Open => String::from_str("open"),
            Status::InProgress => String::from_str("in_progress"),
            Status::Resolved => String::from_str("resolved"),
        }
    }
}

/// Mathematical view of a [`Task`].
#[verifier::ext_equal]
pub ghost struct TaskView {
    pub id: Seq<char>,
    pub text: Seq<char>,
    pub done: bool,
    pub created_at: nat,
    pub updated_at: nat,
}

/// A task: caller-supplied unique string identifier, non-empty text, a
/// done flag, and server-assigned timestamps.
pub struct Task {
    pub id: String,
    pub text: String,
    pub done: bool,
    pub created_at: u64,
    pub updated_at: u64,
}

impl View for Task {
    type V = TaskView;

    open spec fn view(&self) -> TaskView {
        TaskView {
            id: self.id@,
            text: self.text@,
            done: self.done,
            created_at: self.created_at as nat,
            updated_at: self.updated_at as nat,
        }
    }
}

/// Mathematical view of a [`Note`].
#[verifier::ext_equal]
pub ghost struct NoteView {
    pub id: nat,
    pub title: Option<Seq<char>>,
    pub content: Seq<char>,
    pub created_at: nat,
    pub updated_at: nat,
}

/// A note: store-assigned sequential integer identifier, a title (absent
/// until the schema reaches the version that adds the title column),
/// free-form content, and server-assigned timestamps.
pub struct Note {
    pub id: u64,
    pub title: Option<String>,
    pub content: String,
    pub created_at: u64,
    pub updated_at: u64,
}

impl View for Note {
    type V = NoteView;

    open spec fn view(&self) -> NoteView {
        NoteView {
            id: self.id as nat,
            title: match self.title {
                Some(t) => Some(t@),
                None => None,
            },
            content: self.content@,
            created_at: self.created_at as nat,
            updated_at: self.updated_at as nat,
        }
    }
}

/// Mathematical view of a [`Concern`].
#[verifier::ext_equal]
pub ghost struct ConcernView {
    pub id: Seq<char>,
    pub text: Seq<char>,
    pub severity: Severity,
    pub status: Status,
    pub created_at: nat,
    pub updated_at: nat,
}

/// A concern: caller-supplied unique string identifier, non-empty text,
/// a severity and a status from their closed sets, and server-assigned
/// timestamps.
pub struct Concern {
    pub id: String,
    pub text: String,
    pub severity: Severity,
    pub status: Status,
    pub created_at: u64,
    pub updated_at: u64,
}

impl View for Concern {
    type V = ConcernView;

    open spec fn view(&self) -> ConcernView {
        ConcernView {
            id: self.id@,
            text: self.text@,
            severity: self.severity,
            status: self.status,
            created_at: self.created_at as nat,
            updated_at: self.updated_at as nat,
        }
    }
}

/// Mathematical view of a [`SearchEntry`].
#[verifier::ext_equal]
pub ghost struct SearchEntryView {
    pub item_type: ItemType,
    pub item_id: Seq<char>,
    pub title: Seq<char>,
    pub content: Seq<char>,
    pub updated_at: nat,
}

/// A denormalized search-index entry, derived from exactly one live
/// entity: the string form of the owner's identifier, the projected
/// title and content, and a copy of the owner's `updated_at` used for
/// recency ranking.
pub struct SearchEntry {
    pub item_type: ItemType,
    pub item_id: String,
    pub title: String,
    pub content: String,
    pub updated_at: u64,
}

impl View for SearchEntry {
    type V = SearchEntryView;

    open spec fn view(&self) -> SearchEntryView {
        SearchEntryView {
            item_type: self.item_type,
            item_id: self.item_id@,
            title: self.title@,
            content: self.content@,
            updated_at: self.updated_at as nat,
        }
    }
}

/// The digit character for a single decimal digit.
pub open spec fn digit_char(d: nat) -> char {
    if d == 0 {
        '0'
    } else if d == 1 {
        '1'
    } else if d == 2 {
        '2'
    } else if d == 3 {
        '3'
    } else if d == 4 {
        '4'
    } else if d == 5 {
        '5'
    } else if d == 6 {
        '6'
    } else if d == 7 {
        '7'
    } else if d == 8 {
        '8'
    } else {
        '9'
    }
}

/// The decimal representation of a number, without leading zeros (except
/// for the number zero itself). This is the string form under which a
/// note's integer identifier appears in the search index.
pub open spec fn decimal(n: nat) -> Seq<char>
    decreases n,
{
    if n < 10 {
        seq![digit_char(n)]
    } else {
        decimal(n / 10).push(digit_char(n % 10))
    }
}

pub proof fn lemma_decimal_len(n: nat)
    ensures
        decimal(n).len() >= 1,
    decreases n,
{
    if n >= 10 {
        lemma_decimal_len(n / 10);
    }
}

/// Distinct numbers have distinct decimal representations, so a note's
/// identifier string names exactly one note.
pub proof fn lemma_decimal_injective(a: nat, b: nat)
    requires
        decimal(a) == decimal(b),
    ensures
        a == b,
    decreases a + b,
{
    lemma_decimal_len(a);
    lemma_decimal_len(b);
    if a < 10 && b < 10 {
        assert(decimal(a)[0] == digit_char(a));
        assert(decimal(b)[0] == digit_char(b));
        assert(a == b);
    } else if a < 10 {
        lemma_decimal_len(b / 10);
        assert(decimal(b).len() >= 2);
    } else if b < 10 {
        lemma_decimal_len(a / 10);
        assert(decimal(a).len() >= 2);
    } else {
        assert(decimal(a).last() == digit_char(a % 10));
        assert(decimal(b).last() == digit_char(b % 10));
        assert(a % 10 == b % 10);
        assert(decimal(a).drop_last() =~= decimal(a / 10));
        assert(decimal(b).drop_last() =~= decimal(b / 10));
        lemma_decimal_injective(a / 10, b / 10);
        assert(a == 10 * (a / 10) + a % 10) by {
            vstd::arithmetic::div_mod::lemma_fundamental_div_mod(a as int, 10);
        }
        assert(b == 10 * (b / 10) + b % 10) by {
            vstd::arithmetic::div_mod::lemma_fundamental_div_mod(b as int, 10);
        }
    }
}

fn digit_str(d: u64) -> (r: &'static str)
    requires
        d < 10,
    ensures
        r@ =~= seq![digit_char(d as nat)],
{
    proof {
        reveal_strlit("0");
        reveal_strlit("1");
        reveal_strlit("2");
        reveal_strlit("3");
        reveal_strlit("4");
        reveal_strlit("5");
        reveal_strlit("6");
        reveal_strlit("7");
        reveal_strlit("8");
        reveal_strlit("9");
    }
    if d == 0 {
        "0"
    } else if d == 1 {
        "1"
    } else if d == 2 {
        "2"
    } else if d == 3 {
        "3"
    } else if d == 4 {
        "4"
    } else if d == 5 {
        "5"
    } else if d == 6 {
        "6"
    } else if d == 7 {
        "7"
    } else if d == 8 {
        "8"
    } else {
        "9"
    }
}

/// Renders a number in decimal, matching [`decimal`].
pub fn decimal_string(n: u64) -> (r: String)
    ensures
        r@ == decimal(n as nat),
    decreases n,
{
    if n < 10 {
        String::from_str(digit_str(n))
    } else {
        proof {
            assert(n / 10 < n) by (nonlinear_arith)
                requires
                    n >= 10,
            ;
        }
        let mut s = decimal_string(n / 10);
        s.append(digit_str(n % 10));
        proof {
            assert(decimal((n / 10) as nat) + seq![digit_char((n % 10) as nat)] =~= decimal(
                (n / 10) as nat,
            ).push(digit_char((n % 10) as nat)));
        }
        s
    }
}

impl Clone for SearchEntry {
    /// An exact copy: the clone's view equals the original's.
    fn clone(&self) -> (r: Self)
        ensures
            r@ == self@,
    {
        SearchEntry {
            item_type: self.item_type,
            item_id: self.item_id.clone(),
            title: self.title.clone(),
            content: self.content.clone(),
            updated_at: self.updated_at,
        }
    }
}

} // verus!
