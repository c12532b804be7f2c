use vstd::prelude::*;

verus! {

/// An incident as the service reports it.
#[derive(Debug)]
pub struct Incident {
    pub id: Option<String>,
    pub incident_number: Option<u32>,
    pub created_on: Option<String>,
    pub status: Option<String>,
    pub service: Option<Service>,
    pub trigger_summary_data: Option<TriggerSummaryData>,
    pub last_status_change_on: Option<String>,
    pub resolved_by_user: Option<User>,
    pub acknowledgers: Option<Vec<Acknowledger>>,
}

#[derive(Debug)]
pub struct User {
    pub name: String,
    pub email: String,
}

#[derive(Debug)]
pub struct Service {
    pub name: String,
}

#[derive(Debug)]
pub struct TriggerSummaryData {
    pub description: Option<String>,
}

#[derive(Debug)]
pub struct Acknowledger {
    pub at: String,
    pub object: Object,
}

#[derive(Debug)]
pub struct Object {
    pub name: String,
}

/// The status filter of an incident query.
#[derive(Debug, Clone, Copy, PartialEq, Eq, Structural)]
pub enum IncidentStatus {
    Triggered,
    Acknowledged,
    Resolved,
}

impl IncidentStatus {
    /// The name of the status on the wire.
    pub open spec fn spec_name(self) -> Seq<char> {
        match self {
            IncidentStatus::Triggered => "triggered"@,
            IncidentStatus::Acknowledged => "acknowledged"@,
            IncidentStatus::Resolved => "resolved"@,
        }
    }

    pub fn from_str(s: &str) -> (r: Option<IncidentStatus>)
        ensures
            r matches Some(st) ==> st.spec_name() == s@,
            r is None ==> forall|st: IncidentStatus| st.spec_name() != s@,
    {
        let owned = s.to_owned();
        if owned == String::from_str("triggered") {
            Some(IncidentStatus::Triggered)
        } else if owned == String::from_str("acknowledged") {
            Some(IncidentStatus::Acknowledged)
        } else if owned == String::from_str("resolved") {
            Some(IncidentStatus::Resolved)
        } else {
            proof {
                assert forall|st: IncidentStatus| st.spec_name() != s@ by {
                    match st {
                        IncidentStatus::Triggered => {},
                        IncidentStatus::Acknowledged => {},
                        IncidentStatus::Resolved => {},
                    }
                }
            }
            None
        }
    }

    pub fn as_str(&self) -> (r: &'static str)
        ensures
            r@ == self.spec_name(),
    {
        match self {
            IncidentStatus::Triggered => "triggered",
            IncidentStatus::Acknowledged => "acknowledged",
            IncidentStatus::Resolved => "resolved",
        }
    }
}

/// One page of an incident listing: its incidents and where it stands in
/// the whole listing.
#[derive(Debug)]
pub struct IncidentsResponse {
    pub incidents: Vec<Incident>,
    pub limit: u32,
    pub offset: u32,
    pub total: u32,
}

/// The offsets of the pages after the first one: `limit`, `2 * limit`, ...,
/// every multiple of `limit` below `total`. A `limit` of zero asks for none.
pub open spec fn is_followup_plan(r: Seq<u32>, total: u32, limit: u32) -> bool {
    &&& forall|k: int| 0 <= k < r.len() ==> #[trigger] r[k] == (k + 1) * limit
    &&& limit == 0 ==> r.len() == 0
    &&& limit > 0 ==> {
        &&& r.len() == 0 || r.len() * limit < total
        &&& (r.len() + 1) * limit >= total
    }
}

/// The offsets still to be requested after a first page that reported
/// `total` incidents in pages of `limit`.
pub fn next_offsets(total: u32, limit: u32) -> (r: Vec<u32>)
    ensures
        is_followup_plan(r@, total, limit),
{
    let mut r: Vec<u32> = Vec::new();
    if limit == 0 {
        return r;
    }
    let mut offset: u64 = limit as u64;
    assert(r@.len() == 0);
    assert(offset == (r@.len() + 1) * limit) by (nonlinear_arith)
        requires
            r@.len() == 0,
            offset == limit,
    {
    }
    while offset < total as u64
        invariant
            limit > 0,
            offset == (r@.len() + 1) * limit,
            r@.len() == 0 || r@.len() * limit < total,
            forall|k: int| 0 <= k < r@.len() ==> #[trigger] r@[k] == (k + 1) * limit,
        decreases total as int + limit as int - offset as int,
    {
        let ghost lo = r@.len();
        let ghost prev = offset;
        r.push(offset as u32);
        offset = offset + limit as u64;
        assert(offset == (r@.len() + 1) * limit) by (nonlinear_arith)
            requires
                prev == (lo + 1) * limit,
                offset == prev + limit,
                r@.len() == lo + 1,
        {
        }
    }
    r
}

/// The offsets to request after the first page: none when the first page
/// holds no incident, else the pages that its total and limit call for.
pub open spec fn is_plan_after(r: Seq<u32>, first: IncidentsResponse) -> bool {
    if first.incidents@.len() == 0 {
        r.len() == 0
    } else {
        is_followup_plan(r, first.total, first.limit)
    }
}

/// Decides, from the first page of a listing, which further pages to request.
pub fn remaining_offsets(first: &IncidentsResponse) -> (r: Vec<u32>)
    ensures
        is_plan_after(r@, *first),
{
    if first.incidents.len() == 0 {
        Vec::new()
    } else {
        next_offsets(first.total, first.limit)
    }
}

/// The page that stands at `offset`: the first of `pages` that reports it.
pub open spec fn page_at(pages: Seq<IncidentsResponse>, offset: u32) -> Option<IncidentsResponse>
    decreases pages.len(),
{
    if pages.len() == 0 {
        None
    } else if pages[0].offset == offset {
        Some(pages[0])
    } else {
        page_at(pages.drop_first(), offset)
    }
}

/// The incidents of the pages at `offsets`, in the order of `offsets`;
/// `None` when one of them has no page.
pub open spec fn gathered(offsets: Seq<u32>, pages: Seq<IncidentsResponse>) -> Option<Seq<Incident>>
    decreases offsets.len(),
{
    if offsets.len() == 0 {
        Some(seq![])
    } else {
        match (gathered(offsets.drop_last(), pages), page_at(pages, offsets.last())) {
            (Some(s), Some(p)) => Some(s + p.incidents@),
            _ => None,
        }
    }
}

pub open spec fn strictly_increasing(offsets: Seq<u32>) -> bool {
    forall|a: int, b: int| 0 <= a < b < offsets.len() ==> offsets[a] < offsets[b]
}

/// A page that was requested but is not among the responses.
#[derive(Debug, Clone, Copy, PartialEq, Eq, Structural)]
pub struct MissingPage {
    pub offset: u32,
}

proof fn lemma_page_at_first(s: Seq<IncidentsResponse>, j: int, offset: u32)
    requires
        0 <= j < s.len(),
        s[j].offset == offset,
        forall|i: int| 0 <= i < j ==> s[i].offset != offset,
    ensures
        page_at(s, offset) == Some(s[j]),
    decreases j,
{
    if j > 0 {
        lemma_page_at_first(s.drop_first(), j - 1, offset);
    }
}

proof fn lemma_page_at_none(s: Seq<IncidentsResponse>, offset: u32)
    requires
        forall|i: int| 0 <= i < s.len() ==> s[i].offset != offset,
    ensures
        page_at(s, offset) is None,
    decreases s.len(),
{
    if s.len() > 0 {
        lemma_page_at_none(s.drop_first(), offset);
    }
}

proof fn lemma_page_at_remove(s: Seq<IncidentsResponse>, j: int, offset: u32)
    requires
        0 <= j < s.len(),
        s[j].offset != offset,
    ensures
        page_at(s.remove(j), offset) == page_at(s, offset),
    decreases j,
{
    if j == 0 {
        assert(s.remove(0) =~= s.drop_first());
    } else {
        assert(s.remove(j).drop_first() =~= s.drop_first().remove(j - 1));
        lemma_page_at_remove(s.drop_first(), j - 1, offset);
    }
}

proof fn lemma_gathered_stays_none(offsets: Seq<u32>, pages: Seq<IncidentsResponse>, j: int, k: int)
    requires
        0 <= j <= k <= offsets.len(),
        gathered(offsets.take(j), pages) is None,
    ensures
        gathered(offsets.take(k), pages) is None,
    decreases k - j,
{
    if j < k {
        lemma_gathered_stays_none(offsets, pages, j, k - 1);
        assert(offsets.take(k).drop_last() =~= offsets.take(k - 1));
    }
}

proof fn lemma_missing_page(offsets: Seq<u32>, pages: Seq<IncidentsResponse>, k: int)
    requires
        0 <= k < offsets.len(),
        gathered(offsets.take(k), pages) is Some,
        page_at(pages, offsets[k]) is None,
    ensures
        gathered(offsets, pages) is None,
{
    assert(offsets.take(k + 1).drop_last() =~= offsets.take(k));
    assert(offsets.take(k + 1).last() == offsets[k]);
    lemma_gathered_stays_none(offsets, pages, k + 1, offsets.len() as int);
    assert(offsets.take(offsets.len() as int) =~= offsets);
}

fn find_page(pages: &Vec<IncidentsResponse>, offset: u32) -> (r: Option<usize>)
    ensures
        r matches Some(j) ==> j < pages@.len() && pages@[j as int].offset == offset && page_at(pages@, offset)
            == Some(pages@[j as int]),
        r is None ==> page_at(pages@, offset) is None,
{
    let n = pages.len();
    for j in 0..n
        invariant
            n == pages@.len(),
            forall|i: int| 0 <= i < j ==> pages@[i].offset != offset,
    {
        if pages[j].offset == offset {
            proof {
                lemma_page_at_first(pages@, j as int, offset);
            }
            return Some(j);
        }
    }
    proof {
        lemma_page_at_none(pages@, offset);
    }
    None
}

/// Joins the first page with the pages requested at `offsets`, whatever the
/// order in which they came back: the first page's incidents, then each
/// requested page's incidents in ascending offset. Fails on the first
/// requested offset that no page reports.
pub fn aggregate_pages(first: IncidentsResponse, offsets: &Vec<u32>, pages: Vec<IncidentsResponse>) -> (r: Result<
    Vec<Incident>,
    MissingPage,
>)
    requires
        strictly_increasing(offsets@),
    ensures
        r is Ok <==> gathered(offsets@, pages@) is Some,
        r matches Ok(v) ==> v@ == first.incidents@ + gathered(offsets@, pages@).unwrap(),
        r matches Err(e) ==> exists|k: int|
            0 <= k < offsets@.len() && offsets@[k] == e.offset && page_at(pages@, offsets@[k]) is None
                && gathered(offsets@.take(k), pages@) is Some,
{
    let ghost all = pages@;
    let ghost head = first.incidents@;
    let mut first = first;
    let mut result: Vec<Incident> = Vec::new();
    result.append(&mut first.incidents);
    assert(result@ =~= head + seq![]);
    let mut remaining = pages;
    let n = offsets.len();
    for k in 0..n
        invariant
            n == offsets@.len(),
            all == pages@,
            strictly_increasing(offsets@),
            gathered(offsets@.take(k as int), all) matches Some(g) && result@ == head + g,
            forall|o: u32| (forall|a: int| 0 <= a < k ==> offsets@[a] != o) ==> page_at(remaining@, o) == page_at(all, o),
    {
        let offset = offsets[k];
        assert(offsets@.take(k + 1).drop_last() =~= offsets@.take(k as int));
        assert(forall|a: int| 0 <= a < k ==> offsets@[a] < offsets@[k as int]);
        match find_page(&remaining, offset) {
            None => {
                proof {
                    lemma_missing_page(offsets@, all, k as int);
                }
                return Err(MissingPage { offset });
            },
            Some(j) => {
                let ghost before = remaining@;
                let mut page = remaining.remove(j);
                proof {
                    assert forall|o: u32| (forall|a: int| 0 <= a < k + 1 ==> offsets@[a] != o) implies
                        page_at(remaining@, o) == page_at(all, o) by {
                        lemma_page_at_remove(before, j as int, o);
                    }
                }
                let ghost g = gathered(offsets@.take(k as int), all).unwrap();
                let ghost items = page.incidents@;
                result.append(&mut page.incidents);
                assert(result@ =~= head + (g + items));
            },
        }
    }
    assert(offsets@.take(n as int) =~= offsets@);
    Ok(result)
}

/// A first page without incidents ends the listing: no further page is
/// requested, and the joined listing is empty.
pub proof fn lemma_empty_first_page(
    first: IncidentsResponse,
    plan: Seq<u32>,
    pages: Seq<IncidentsResponse>,
)
    requires
        first.incidents@.len() == 0,
        is_plan_after(plan, first),
    ensures
        plan.len() == 0,
        gathered(plan, pages) == Some(Seq::<Incident>::empty()),
        first.incidents@ + gathered(plan, pages).unwrap() == Seq::<Incident>::empty(),
{
    assert(first.incidents@ + Seq::<Incident>::empty() =~= Seq::<Incident>::empty());
}

pub open spec fn distinct_offsets(pages: Seq<IncidentsResponse>) -> bool {
    forall|a: int, b: int|
        0 <= a < pages.len() && 0 <= b < pages.len() && a != b ==> pages[a].offset != pages[b].offset
}

proof fn lemma_page_at_found(s: Seq<IncidentsResponse>, offset: u32)
    ensures
        page_at(s, offset) matches Some(p) ==> s.contains(p) && p.offset == offset,
        page_at(s, offset) is None ==> forall|i: int| 0 <= i < s.len() ==> s[i].offset != offset,
    decreases s.len(),
{
    if s.len() > 0 {
        lemma_page_at_found(s.drop_first(), offset);
        if s[0].offset != offset {
            if let Some(p) = page_at(s, offset) {
                let i = choose|i: int| 0 <= i < s.drop_first().len() && s.drop_first()[i] == p;
                assert(s[i + 1] == p);
            } else {
                assert forall|i: int| 0 <= i < s.len() implies s[i].offset != offset by {
                    if i > 0 {
                        assert(s[i] == s.drop_first()[i - 1]);
                    }
                }
            }
        } else {
            assert(s[0] == s[0]);
        }
    }
}

proof fn lemma_page_at_same(pages1: Seq<IncidentsResponse>, pages2: Seq<IncidentsResponse>, offset: u32)
    requires
        distinct_offsets(pages1),
        pages1.to_multiset() == pages2.to_multiset(),
    ensures
        page_at(pages1, offset) == page_at(pages2, offset),
{
    pages1.to_multiset_ensures();
    pages2.to_multiset_ensures();
    lemma_page_at_found(pages1, offset);
    lemma_page_at_found(pages2, offset);
    match (page_at(pages1, offset), page_at(pages2, offset)) {
        (Some(p), Some(q)) => {
            assert(pages2.to_multiset().count(q) > 0);
            assert(pages1.contains(q));
            let a = choose|a: int| 0 <= a < pages1.len() && pages1[a] == p;
            let b = choose|b: int| 0 <= b < pages1.len() && pages1[b] == q;
            assert(a == b);
        },
        (None, Some(q)) => {
            assert(pages2.to_multiset().count(q) > 0);
            assert(pages1.contains(q));
        },
        (Some(p), None) => {
            assert(pages1.to_multiset().count(p) > 0);
            assert(pages2.contains(p));
        },
        (None, None) => {},
    }
}

/// Pages that report distinct offsets are joined into the same listing in
/// whatever order they arrived.
pub proof fn lemma_arrival_order_irrelevant(
    offsets: Seq<u32>,
    pages1: Seq<IncidentsResponse>,
    pages2: Seq<IncidentsResponse>,
)
    requires
        distinct_offsets(pages1),
        pages1.to_multiset() == pages2.to_multiset(),
    ensures
        gathered(offsets, pages1) == gathered(offsets, pages2),
    decreases offsets.len(),
{
    if offsets.len() > 0 {
        lemma_arrival_order_irrelevant(offsets.drop_last(), pages1, pages2);
        lemma_page_at_same(pages1, pages2, offsets.last());
    }
}

} // verus!
