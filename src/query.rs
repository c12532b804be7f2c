use vstd::prelude::*;

use crate::pagerduty::IncidentStatus;
use crate::rules::views_of;

verus! {

/// The character of a decimal digit.
pub open spec fn digit_char(d: nat) -> char {
    if d == 0 {
        '0'
    } else if d == 1 {
        '1'
    } else if d == 2 {
        '2'
    } else if d == 3 {
        '3'
    } else if d == 4 {
        '4'
    } else if d == 5 {
        '5'
    } else if d == 6 {
        '6'
    } else if d == 7 {
        '7'
    } else if d == 8 {
        '8'
    } else {
        '9'
    }
}

/// The decimal digits of `n`, without leading zeros.
pub open spec fn decimal(n: nat) -> Seq<char>
    decreases n,
{
    if n < 10 {
        seq![digit_char(n)]
    } else {
        decimal(n / 10) + seq![digit_char(n % 10)]
    }
}

fn digit_str(d: u32) -> (r: &'static str)
    requires
        d < 10,
    ensures
        r@ == seq![digit_char(d as nat)],
{
    proof {
        reveal_strlit("0");
        reveal_strlit("1");
        reveal_strlit("2");
        reveal_strlit("3");
        reveal_strlit("4");
        reveal_strlit("5");
        reveal_strlit("6");
        reveal_strlit("7");
        reveal_strlit("8");
        reveal_strlit("9");
    }
    if d == 0 {
        "0"
    } else if d == 1 {
        "1"
    } else if d == 2 {
        "2"
    } else if d == 3 {
        "3"
    } else if d == 4 {
        "4"
    } else if d == 5 {
        "5"
    } else if d == 6 {
        "6"
    } else if d == 7 {
        "7"
    } else if d == 8 {
        "8"
    } else {
        "9"
    }
}

/// Appends the decimal digits of `n`.
pub fn push_decimal(s: &mut String, n: u32)
    ensures
        final(s)@ == old(s)@ + decimal(n as nat),
    decreases n,
{
    if n >= 10 {
        push_decimal(s, n / 10);
    }
    s.append(digit_str(n % 10));
    assert(final(s)@ =~= old(s)@ + decimal(n as nat));
}

/// A calendar day, as the incident query names it.
#[derive(Debug, Clone, Copy, PartialEq, Eq, Structural)]
pub struct Day {
    year: u32,
    month: u32,
    day: u32,
}

impl Day {
    pub open spec fn valid(year: u32, month: u32, day: u32) -> bool {
        year <= 9999 && 1 <= month <= 12 && 1 <= day <= 31
    }

    pub closed spec fn spec_year(self) -> u32 {
        self.year
    }

    pub closed spec fn spec_month(self) -> u32 {
        self.month
    }

    pub closed spec fn spec_day(self) -> u32 {
        self.day
    }

    pub closed spec fn wf(self) -> bool {
        Day::valid(self.year, self.month, self.day)
    }

    /// The day, when its year has at most four digits and its month and day
    /// are in range.
    pub fn new(year: u32, month: u32, day: u32) -> (r: Option<Day>)
        ensures
            r is Some <==> Day::valid(year, month, day),
            r matches Some(d) ==> d.wf() && d.spec_year() == year && d.spec_month() == month
                && d.spec_day() == day,
    {
        if year <= 9999 && 1 <= month && month <= 12 && 1 <= day && day <= 31 {
            Some(Day { year, month, day })
        } else {
            None
        }
    }

    /// `YYYY-MM-DD`.
    pub open spec fn text(self) -> Seq<char> {
        let y = self.spec_year() as nat;
        let m = self.spec_month() as nat;
        let d = self.spec_day() as nat;
        seq![
            digit_char(y / 1000),
            digit_char((y / 100) % 10),
            digit_char((y / 10) % 10),
            digit_char(y % 10),
            '-',
            digit_char(m / 10),
            digit_char(m % 10),
            '-',
            digit_char(d / 10),
            digit_char(d % 10),
        ]
    }

    /// Appends the day as `YYYY-MM-DD`.
    pub fn push_text(&self, s: &mut String)
        requires
            self.wf(),
        ensures
            final(s)@ == old(s)@ + self.text(),
    {
        proof {
            reveal_strlit("-");
        }
        s.append(digit_str(self.year / 1000));
        s.append(digit_str((self.year / 100) % 10));
        s.append(digit_str((self.year / 10) % 10));
        s.append(digit_str(self.year % 10));
        s.append("-");
        s.append(digit_str(self.month / 10));
        s.append(digit_str(self.month % 10));
        s.append("-");
        s.append(digit_str(self.day / 10));
        s.append(digit_str(self.day % 10));
        assert(final(s)@ =~= old(s)@ + self.text());
    }
}

/// `parts` with `sep` between each two of them.
pub open spec fn joined(parts: Seq<Seq<char>>, sep: Seq<char>) -> Seq<char>
    decreases parts.len(),
{
    if parts.len() == 0 {
        seq![]
    } else if parts.len() == 1 {
        parts[0]
    } else {
        joined(parts.drop_last(), sep) + sep + parts.last()
    }
}

/// Joins `parts` with `sep` between each two of them.
pub fn join(parts: &Vec<String>, sep: &str) -> (r: String)
    ensures
        r@ == joined(views_of(parts@), sep@),
{
    let mut r = String::new();
    let n = parts.len();
    for i in 0..n
        invariant
            n == parts@.len(),
            r@ == joined(views_of(parts@.take(i as int)), sep@),
    {
        let ghost before = views_of(parts@.take(i as int));
        assert(views_of(parts@.take(i + 1)) =~= before.push(parts@[i as int]@));
        assert(views_of(parts@.take(i + 1)).drop_last() =~= before);
        if i > 0 {
            r.append(sep);
        } else {
            assert(r@ =~= seq![]);
        }
        r.append(parts[i].as_str());
        assert(r@ =~= joined(views_of(parts@.take(i + 1)), sep@));
    }
    assert(parts@.take(n as int) =~= parts@);
    r
}

/// The parameters of an incident listing query, in their order on the wire.
pub open spec fn query_params(
    timezone: Seq<char>,
    timezone_short: Seq<char>,
    since: Option<Day>,
    until: Option<Day>,
    offset: u32,
    status: Option<IncidentStatus>,
    fields: Seq<Seq<char>>,
) -> Seq<Seq<char>> {
    seq!["time_zone="@ + timezone, "offset="@ + decimal(offset as nat)] + match since {
        Some(d) => seq!["since="@ + d.text() + "T00%3A00%3A00"@ + timezone_short],
        None => seq![],
    } + match until {
        Some(d) => seq!["until="@ + d.text() + "T23%3A59%3A59"@ + timezone_short],
        None => seq![],
    } + match status {
        Some(st) => seq!["status="@ + st.spec_name()],
        None => seq![],
    } + if fields.len() == 0 {
        seq![]
    } else {
        seq!["fields="@ + joined(fields, ","@)]
    }
}

/// Where and as whom the incident service is queried.
#[derive(Debug, Clone)]
pub struct Account {
    pub token: String,
    pub org: String,
    pub timezone: String,
    pub timezone_short: String,
}

impl Account {
    /// The listing URL for one page of incidents.
    pub fn make_url(
        &self,
        since: Option<Day>,
        until: Option<Day>,
        offset: u32,
        status: &Option<IncidentStatus>,
        fields: &Vec<String>,
    ) -> (r: String)
        requires
            since matches Some(d) ==> d.wf(),
            until matches Some(d) ==> d.wf(),
        ensures
            r@ == "https://"@ + self.org@ + ".pagerduty.com/api/v1/incidents?"@ + joined(
                query_params(
                    self.timezone@,
                    self.timezone_short@,
                    since,
                    until,
                    offset,
                    *status,
                    views_of(fields@),
                ),
                "&"@,
            ),
    {
        let mut params: Vec<String> = Vec::new();
        let mut p = String::from_str("time_zone=");
        p.append(self.timezone.as_str());
        params.push(p);
        let mut p = String::from_str("offset=");
        push_decimal(&mut p, offset);
        params.push(p);
        if let Some(d) = since {
            let mut p = String::from_str("since=");
            d.push_text(&mut p);
            p.append("T00%3A00%3A00");
            p.append(self.timezone_short.as_str());
            params.push(p);
        }
        if let Some(d) = until {
            let mut p = String::from_str("until=");
            d.push_text(&mut p);
            p.append("T23%3A59%3A59");
            p.append(self.timezone_short.as_str());
            params.push(p);
        }
        if let Some(st) = status {
            let mut p = String::from_str("status=");
            p.append(st.as_str());
            params.push(p);
        }
        if fields.len() > 0 {
            let mut p = String::from_str("fields=");
            p.append(join(fields, ",").as_str());
            params.push(p);
        }
        assert(views_of(params@) =~= query_params(
            self.timezone@,
            self.timezone_short@,
            since,
            until,
            offset,
            *status,
            views_of(fields@),
        ));
        let mut url = String::from_str("https://");
        url.append(self.org.as_str());
        url.append(".pagerduty.com/api/v1/incidents?");
        url.append(join(&params, "&").as_str());
        url
    }

    /// The URL that resolves an incident on behalf of `requester_id`.
    pub fn resolve_url(&self, incident_id: &str, requester_id: &str) -> (r: String)
        ensures
            r@ == "https://"@ + self.org@ + ".pagerduty.com/api/v1/incidents/"@ + incident_id@
                + "/resolve?requester_id="@ + requester_id@,
    {
        let mut url = String::from_str("https://");
        url.append(self.org.as_str());
        url.append(".pagerduty.com/api/v1/incidents/");
        url.append(incident_id);
        url.append("/resolve?requester_id=");
        url.append(requester_id);
        url
    }

    /// The value of the `Authorization` header.
    pub fn authorization(&self) -> (r: String)
        ensures
            r@ == "Token token="@ + self.token@,
    {
        let mut h = String::from_str("Token token=");
        h.append(self.token.as_str());
        h
    }
}

} // verus!
