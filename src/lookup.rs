//! Turning TXT answers into results, and the merged IP-to-ASN lookup.

use vstd::prelude::*;

use crate::error::Error;
use crate::query::IpAddress;
use crate::records::{
    AsNumber,
    asn_rows,
    asn_views,
    date_string,
    date_text,
    iso_date,
    origin_rows,
    origin_views,
    parse_cymru_asn,
    parse_cymru_origin,
    texts,
    CymruASN,
    CymruASNView,
    CymruOrigin,
    CymruOriginView,
    Date,
};

verus! {

/// The TXT strings found under a name, and for how many more seconds they
/// are valid.
pub struct TxtAnswer {
    pub records: Vec<String>,
    pub ttl: u64,
}

/// `now + ttl`, or the largest timestamp where that does not fit.
pub open spec fn expiry(now: u64, ttl: u64) -> u64 {
    if now + ttl <= u64::MAX {
        (now + ttl) as u64
    } else {
        u64::MAX
    }
}

/// The moment, in seconds since the Unix epoch, at which an answer that is
/// valid for `ttl` more seconds from `now` goes stale.
pub fn expires_at(now: u64, ttl: u64) -> (r: u64)
    ensures
        r == expiry(now, ttl),
{
    if ttl <= u64::MAX - now {
        now + ttl
    } else {
        u64::MAX
    }
}

/// What an AS-information lookup returns for the resolver's `answer`,
/// received at `now`.
pub open spec fn asn_outcome(
    answer: Result<TxtAnswer, Error>,
    now: u64,
    r: Result<Vec<CymruASN>, Error>,
) -> bool {
    match answer {
        Err(e) => r == Err::<Vec<CymruASN>, Error>(e),
        Ok(a) => {
            let v = asn_rows(texts(a.records@), expiry(now, a.ttl));
            if v.len() == 0 {
                r matches Err(Error::NoResultsFound)
            } else {
                r matches Ok(x) && asn_views(x@) == v
            }
        },
    }
}

/// What an origin lookup returns for the resolver's `answer`, received at
/// `now`.
pub open spec fn origin_outcome(
    answer: Result<TxtAnswer, Error>,
    now: u64,
    r: Result<Vec<CymruOrigin>, Error>,
) -> bool {
    match answer {
        Err(e) => r == Err::<Vec<CymruOrigin>, Error>(e),
        Ok(a) => {
            let v = origin_rows(texts(a.records@), expiry(now, a.ttl));
            if v.len() == 0 {
                r matches Err(Error::NoResultsFound)
            } else {
                r matches Ok(x) && origin_views(x@) == v
            }
        },
    }
}

/// The records of an AS-information lookup, from the resolver's answer to
/// the name `asn_query_name` gives; the resolver's failure is passed on.
pub fn cymru_asn_from_answer(answer: Result<TxtAnswer, Error>, now: u64) -> (r: Result<
    Vec<CymruASN>,
    Error,
>)
    ensures
        asn_outcome(answer, now, r),
{
    match answer {
        Err(e) => Err(e),
        Ok(a) => {
            let results = parse_cymru_asn(a.records, expires_at(now, a.ttl));
            if results.len() == 0 {
                Err(Error::NoResultsFound)
            } else {
                Ok(results)
            }
        },
    }
}

/// The records of an origin lookup, from the resolver's answer to the name
/// `origin_query_name` gives; the resolver's failure is passed on.
pub fn cymru_origin_from_answer(answer: Result<TxtAnswer, Error>, now: u64) -> (r: Result<
    Vec<CymruOrigin>,
    Error,
>)
    ensures
        origin_outcome(answer, now, r),
{
    match answer {
        Err(e) => Err(e),
        Ok(a) => {
            let results = parse_cymru_origin(a.records, expires_at(now, a.ttl));
            if results.len() == 0 {
                Err(Error::NoResultsFound)
            } else {
                Ok(results)
            }
        },
    }
}

/// One result of an IP-to-ASN lookup: an origin of the address's prefix,
/// with what the service knows of that origin's AS.
#[derive(Clone, Debug, PartialEq, Eq, PartialOrd, Ord)]
pub struct CymruIP2ASN {
    pub ip_addr: IpAddress,
    pub bgp_prefix: String,
    pub as_number: AsNumber,
    pub as_name: String,
    pub country_code: String,
    pub registry: String,
    pub allocated: Option<String>,
    /// Seconds since the Unix epoch after which the result is stale.
    pub expires: u64,
}

pub ghost struct CymruIP2ASNView {
    pub ip_addr: IpAddress,
    pub bgp_prefix: Seq<char>,
    pub as_number: u32,
    pub as_name: Seq<char>,
    pub country_code: Seq<char>,
    pub registry: Seq<char>,
    pub allocated: Option<Seq<char>>,
    pub expires: u64,
}

impl View for CymruIP2ASN {
    type V = CymruIP2ASNView;

    open spec fn view(&self) -> CymruIP2ASNView {
        CymruIP2ASNView {
            ip_addr: self.ip_addr,
            bgp_prefix: self.bgp_prefix@,
            as_number: self.as_number,
            as_name: self.as_name@,
            country_code: self.country_code@,
            registry: self.registry@,
            allocated: match self.allocated {
                Some(s) => Some(s@),
                None => None,
            },
            expires: self.expires,
        }
    }
}

pub open spec fn result_views(v: Seq<CymruIP2ASN>) -> Seq<CymruIP2ASNView> {
    v.map_values(|m: CymruIP2ASN| m@)
}

pub open spec fn allocated_text(d: Option<Date>) -> Option<Seq<char>> {
    match d {
        Some(x) => Some(date_text(x)),
        None => None,
    }
}

/// The result for `ip` that joins the origin `o` with the AS information `a`.
pub open spec fn merged(ip: IpAddress, o: CymruOriginView, a: CymruASNView) -> CymruIP2ASNView {
    CymruIP2ASNView {
        ip_addr: ip,
        bgp_prefix: o.bgp_prefix,
        as_number: o.as_number,
        as_name: a.as_name,
        country_code: o.country_code,
        registry: o.registry,
        allocated: allocated_text(o.allocated),
        expires: vstd::math::min(o.expires as int, a.expires as int) as u64,
    }
}

/// Joins an origin of `ip` with what the service knows of its AS; the result
/// expires when the first of the two does.
pub fn merge_records(ip: IpAddress, origin: &CymruOrigin, info: &CymruASN) -> (r: CymruIP2ASN)
    ensures
        r@ == merged(ip, origin@, info@),
        r.expires == vstd::math::min(origin.expires as int, info.expires as int),
        ({
            let d = origin.allocated->Some_0;
            origin.allocated is Some && d.is_valid() && 0 <= d.year <= 9999 ==> r@.allocated == Some(
                iso_date(d),
            )
        }),
{
    let allocated = match origin.allocated {
        Some(d) => Some(date_string(d)),
        None => None,
    };
    let expires = if origin.expires <= info.expires {
        origin.expires
    } else {
        info.expires
    };
    CymruIP2ASN {
        ip_addr: ip,
        bgp_prefix: origin.bgp_prefix.clone(),
        as_number: origin.as_number,
        as_name: info.as_name.clone(),
        country_code: origin.country_code.clone(),
        registry: origin.registry.clone(),
        allocated,
        expires,
    }
}

pub open spec fn has_as_number(s: Seq<CymruOriginView>, n: u32) -> bool {
    exists|k: int| 0 <= k < s.len() && #[trigger] s[k].as_number == n
}

/// The records of `s` whose AS number no earlier record has, in order.
pub open spec fn first_seen(s: Seq<CymruOriginView>) -> Seq<CymruOriginView>
    decreases s.len(),
{
    if s.len() == 0 {
        Seq::empty()
    } else {
        let p = first_seen(s.drop_last());
        if has_as_number(p, s.last().as_number) {
            p
        } else {
            p.push(s.last())
        }
    }
}

/// `r` joins `o` for `ip` with some AS-information record.
pub open spec fn merged_from(r: CymruIP2ASNView, ip: IpAddress, o: CymruOriginView) -> bool {
    exists|a: CymruASNView| r == #[trigger] merged(ip, o, a)
}

/// `r` is what a merged lookup of `ip` whose origin records are `origins`
/// may return: one result for each distinct AS number, in the order in which
/// the numbers first appear, each from the first origin with that number.
pub open spec fn merged_outcome(
    ip: IpAddress,
    origins: Seq<CymruOriginView>,
    r: Seq<CymruIP2ASNView>,
) -> bool {
    let f = first_seen(origins);
    &&& r.len() == f.len()
    &&& forall|k: int| 0 <= k < r.len() ==> merged_from(#[trigger] r[k], ip, f[k])
}

/// No record of `s` before index `i` has the AS number of `s[i]`.
pub open spec fn is_first_of_its_as(s: Seq<CymruOriginView>, i: int) -> bool {
    forall|j: int| 0 <= j < i ==> #[trigger] s[j].as_number != s[i].as_number
}

proof fn lemma_first_seen(s: Seq<CymruOriginView>)
    ensures
        first_seen(s).len() <= s.len(),
        s.len() > 0 ==> first_seen(s).len() > 0,
        forall|i: int, j: int|
            0 <= i < j < first_seen(s).len() ==> #[trigger] first_seen(s)[i].as_number
                != #[trigger] first_seen(s)[j].as_number,
        forall|i: int| 0 <= i < s.len() ==> has_as_number(first_seen(s), #[trigger] s[i].as_number),
        forall|k: int|
            0 <= k < first_seen(s).len() ==> exists|i: int|
                0 <= i < s.len() && #[trigger] first_seen(s)[k] == s[i] && is_first_of_its_as(s, i),
    decreases s.len(),
{
    if s.len() > 0 {
        let t = s.drop_last();
        let p = first_seen(t);
        let x = s.last();
        lemma_first_seen(t);
        assert forall|i: int| 0 <= i < s.len() - 1 implies #[trigger] s[i] == t[i] by {}
        if has_as_number(p, x.as_number) {
            assert forall|i: int| 0 <= i < s.len() implies has_as_number(
                first_seen(s),
                #[trigger] s[i].as_number,
            ) by {
                if i < s.len() - 1 {
                    assert(s[i] == t[i]);
                }
            }
            assert forall|k: int| 0 <= k < first_seen(s).len() implies exists|i: int|
                0 <= i < s.len() && #[trigger] first_seen(s)[k] == s[i] && is_first_of_its_as(
                    s,
                    i,
                ) by {
                let i = choose|i: int|
                    0 <= i < t.len() && #[trigger] p[k] == t[i] && is_first_of_its_as(t, i);
                assert(s[i] == t[i]);
                assert forall|j: int| 0 <= j < i implies #[trigger] s[j].as_number
                    != s[i].as_number by {
                    assert(s[j] == t[j]);
                }
            }
        } else {
            let f = p.push(x);
            assert(first_seen(s) == f);
            assert forall|i: int, j: int| 0 <= i < j < f.len() implies #[trigger] f[i].as_number
                != #[trigger] f[j].as_number by {
                if j == f.len() - 1 {
                    assert(f[i] == p[i]);
                    if p[i].as_number == x.as_number {
                        assert(has_as_number(p, x.as_number));
                    }
                } else {
                    assert(f[i] == p[i] && f[j] == p[j]);
                }
            }
            assert forall|i: int| 0 <= i < s.len() implies has_as_number(
                f,
                #[trigger] s[i].as_number,
            ) by {
                if i < s.len() - 1 {
                    assert(s[i] == t[i]);
                    let k = choose|k: int| 0 <= k < p.len() && #[trigger] p[k].as_number == t[i].as_number;
                    assert(f[k] == p[k]);
                } else {
                    assert(f[p.len() as int] == x);
                }
            }
            assert forall|k: int| 0 <= k < f.len() implies exists|i: int|
                0 <= i < s.len() && #[trigger] f[k] == s[i] && is_first_of_its_as(s, i) by {
                if k < p.len() {
                    let i = choose|i: int|
                        0 <= i < t.len() && #[trigger] p[k] == t[i] && is_first_of_its_as(t, i);
                    assert(f[k] == p[k]);
                    assert(s[i] == t[i]);
                    assert forall|j: int| 0 <= j < i implies #[trigger] s[j].as_number
                        != s[i].as_number by {
                        assert(s[j] == t[j]);
                    }
                } else {
                    let i = s.len() - 1;
                    assert(f[k] == s[i]);
                    assert forall|j: int| 0 <= j < i implies #[trigger] s[j].as_number
                        != s[i].as_number by {
                        assert(s[j] == t[j]);
                        assert(has_as_number(p, t[j].as_number));
                    }
                }
            }
        }
    }
}

proof fn lemma_outcome_as_numbers(
    ip: IpAddress,
    origins: Seq<CymruOriginView>,
    r: Seq<CymruIP2ASNView>,
)
    requires
        merged_outcome(ip, origins, r),
    ensures
        forall|k: int|
            0 <= k < r.len() ==> #[trigger] r[k].as_number == first_seen(origins)[k].as_number,
{
    let f = first_seen(origins);
    assert forall|k: int| 0 <= k < r.len() implies #[trigger] r[k].as_number == f[k].as_number by {
        assert(merged_from(r[k], ip, f[k]));
        let a = choose|a: CymruASNView| r[k] == #[trigger] merged(ip, f[k], a);
    }
}

/// A merged lookup holds one result per distinct AS number of its origin
/// records and no more: no two results share an AS number, every AS number
/// of the origins has a result, and each result carries the fields of the
/// first origin record with its AS number.
pub proof fn lemma_one_result_per_as_number(
    ip: IpAddress,
    origins: Seq<CymruOriginView>,
    r: Seq<CymruIP2ASNView>,
)
    requires
        merged_outcome(ip, origins, r),
    ensures
        forall|i: int, j: int| 0 <= i < j < r.len() ==> #[trigger] r[i].as_number != #[trigger] r[j].as_number,
        forall|i: int|
            0 <= i < origins.len() ==> exists|k: int|
                0 <= k < r.len() && #[trigger] r[k].as_number == #[trigger] origins[i].as_number,
        forall|k: int|
            0 <= k < r.len() ==> exists|i: int|
                0 <= i < origins.len() && is_first_of_its_as(origins, i) && merged_from(
                    #[trigger] r[k],
                    ip,
                    #[trigger] origins[i],
                ),
{
    let f = first_seen(origins);
    lemma_first_seen(origins);
    lemma_outcome_as_numbers(ip, origins, r);
    assert forall|i: int, j: int| 0 <= i < j < r.len() implies #[trigger] r[i].as_number
        != #[trigger] r[j].as_number by {
        assert(r[i].as_number == f[i].as_number);
        assert(r[j].as_number == f[j].as_number);
    }
    assert forall|i: int| 0 <= i < origins.len() implies exists|k: int|
        0 <= k < r.len() && #[trigger] r[k].as_number == #[trigger] origins[i].as_number by {
        assert(has_as_number(f, origins[i].as_number));
        let k = choose|k: int| 0 <= k < f.len() && #[trigger] f[k].as_number == origins[i].as_number;
        assert(r[k].as_number == f[k].as_number);
    }
    assert forall|k: int| 0 <= k < r.len() implies exists|i: int|
        0 <= i < origins.len() && is_first_of_its_as(origins, i) && merged_from(
            #[trigger] r[k],
            ip,
            #[trigger] origins[i],
        ) by {
        let i = choose|i: int|
            0 <= i < origins.len() && #[trigger] f[k] == origins[i] && is_first_of_its_as(origins, i);
        assert(merged_from(r[k], ip, f[k]));
    }
}

/// A merged IP-to-ASN lookup under way: the origin records of `ip`, how
/// many of them have been handled, and the results so far.
pub struct Ip2AsnLookup {
    pub ip: IpAddress,
    pub origins: Vec<CymruOrigin>,
    pub next: usize,
    pub results: Vec<CymruIP2ASN>,
}

/// What a merged lookup needs next.
pub enum Ip2AsnStep {
    /// The AS information of this AS number, to be handed to `resume`.
    Query(Ip2AsnLookup, AsNumber),
    /// The lookup is over.
    Done(Result<Vec<CymruIP2ASN>, Error>),
}

/// The results a step holds, unless it is a failure.
pub open spec fn step_results(r: Ip2AsnStep) -> Option<Seq<CymruIP2ASNView>> {
    match r {
        Ip2AsnStep::Query(s, _) => Some(result_views(s.results@)),
        Ip2AsnStep::Done(Ok(v)) => Some(result_views(v@)),
        Ip2AsnStep::Done(Err(_)) => None,
    }
}

/// `r` is a step that a lookup of `ip` over `origins` may take when no AS
/// query has failed: ask for the next AS number that has no result yet,
/// finish with the results, or fail for want of origins.
pub open spec fn valid_step(ip: IpAddress, origins: Seq<CymruOriginView>, r: Ip2AsnStep) -> bool {
    match r {
        Ip2AsnStep::Query(s, n) => {
            &&& s.awaiting()
            &&& s.ip == ip
            &&& origin_views(s.origins@) == origins
            &&& n == origins[s.next as int].as_number
        },
        Ip2AsnStep::Done(Ok(v)) => v.len() > 0 && merged_outcome(ip, origins, result_views(v@)),
        Ip2AsnStep::Done(Err(e)) => e is NoResultsFound && origins.len() == 0,
    }
}

/// The first step of a lookup of `ip` whose origin lookup gave `origins`.
pub open spec fn start_outcome(
    ip: IpAddress,
    origins: Result<Vec<CymruOrigin>, Error>,
    r: Ip2AsnStep,
) -> bool {
    match origins {
        Err(e) => r == Ip2AsnStep::Done(Err(e)),
        Ok(v) => {
            &&& valid_step(ip, origin_views(v@), r)
            &&& (step_results(r) matches Some(x) ==> x.len() == 0)
        },
    }
}

/// The step after `s` received `answer` to its AS query: a failed query
/// fails the whole lookup; otherwise the result joining the awaited origin
/// with the first AS record is added.
pub open spec fn resume_outcome(
    s: Ip2AsnLookup,
    answer: Result<Vec<CymruASN>, Error>,
    r: Ip2AsnStep,
) -> bool {
    match answer {
        Err(e) => r == Ip2AsnStep::Done(Err(e)),
        Ok(v) => if v.len() == 0 {
            r matches Ip2AsnStep::Done(Err(Error::NoResultsFound))
        } else {
            &&& valid_step(s.ip, origin_views(s.origins@), r)
            &&& step_results(r) == Some(
                result_views(s.results@).push(merged(s.ip, s.origins@[s.next as int]@, v@[0]@)),
            )
        },
    }
}

impl Ip2AsnLookup {
    /// The results are those of the origins before `next`.
    pub open spec fn wf(&self) -> bool {
        &&& self.next <= self.origins.len()
        &&& merged_outcome(
            self.ip,
            origin_views(self.origins@).take(self.next as int),
            result_views(self.results@),
        )
    }

    /// The origin at `next` has an AS number that has no result yet.
    pub open spec fn awaiting(&self) -> bool {
        &&& self.wf()
        &&& self.next < self.origins.len()
        &&& !has_as_number(
            first_seen(origin_views(self.origins@).take(self.next as int)),
            self.origins@[self.next as int].as_number,
        )
    }

    fn has_result_for(&self, n: u32) -> (b: bool)
        requires
            self.wf(),
        ensures
            b == has_as_number(first_seen(origin_views(self.origins@).take(self.next as int)), n),
    {
        let ghost f = first_seen(origin_views(self.origins@).take(self.next as int));
        proof {
            lemma_outcome_as_numbers(
                self.ip,
                origin_views(self.origins@).take(self.next as int),
                result_views(self.results@),
            );
            assert(result_views(self.results@).len() == self.results@.len());
            assert forall|k: int| 0 <= k < f.len() implies #[trigger] f[k].as_number
                == self.results@[k].as_number by {
                assert(result_views(self.results@)[k] == self.results@[k]@);
            }
        }
        let mut i: usize = 0;
        while i < self.results.len()
            invariant
                i <= self.results.len() == f.len(),
                f == first_seen(origin_views(self.origins@).take(self.next as int)),
                forall|k: int| 0 <= k < f.len() ==> #[trigger] f[k].as_number == self.results@[k].as_number,
                forall|k: int| 0 <= k < i ==> #[trigger] f[k].as_number != n,
            decreases self.results.len() - i,
        {
            if self.results[i].as_number == n {
                assert(f[i as int].as_number == n);
                assert(has_as_number(f, n));
                return true;
            }
            i += 1;
        }
        assert(!has_as_number(f, n));
        false
    }

    fn advance(self) -> (r: Ip2AsnStep)
        requires
            self.wf(),
        ensures
            valid_step(self.ip, origin_views(self.origins@), r),
            !(r matches Ip2AsnStep::Done(Err(_))) ==> step_results(r) == Some(
                result_views(self.results@),
            ),
    {
        let ghost all = origin_views(self.origins@);
        let mut s = self;
        while s.next < s.origins.len() && s.has_result_for(s.origins[s.next].as_number)
            invariant
                s.wf(),
                s.ip == self.ip,
                s.origins@ == self.origins@,
                s.results@ == self.results@,
                all == origin_views(s.origins@),
            decreases s.origins.len() - s.next,
        {
            assert(all.take(s.next + 1).drop_last() =~= all.take(s.next as int));
            assert(all.take(s.next + 1).last() == all[s.next as int]);
            s.next += 1;
        }
        if s.next < s.origins.len() {
            let n = s.origins[s.next].as_number;
            Ip2AsnStep::Query(s, n)
        } else {
            assert(all.take(s.next as int) =~= all);
            if s.results.len() == 0 {
                proof {
                    lemma_first_seen(all);
                }
                Ip2AsnStep::Done(Err(Error::NoResultsFound))
            } else {
                Ip2AsnStep::Done(Ok(s.results))
            }
        }
    }

    /// Begins the merged lookup of `ip` from the answer to its origin lookup.
    pub fn start(ip: IpAddress, origins: Result<Vec<CymruOrigin>, Error>) -> (r: Ip2AsnStep)
        ensures
            start_outcome(ip, origins, r),
    {
        match origins {
            Err(e) => Ip2AsnStep::Done(Err(e)),
            Ok(v) => {
                let s = Ip2AsnLookup { ip, origins: v, next: 0, results: Vec::new() };
                assert(origin_views(s.origins@).take(0) =~= Seq::<CymruOriginView>::empty());
                assert(result_views(s.results@) =~= Seq::<CymruIP2ASNView>::empty());
                s.advance()
            },
        }
    }

    /// Goes on with the answer to the AS query that the last step asked for.
    pub fn resume(self, answer: Result<Vec<CymruASN>, Error>) -> (r: Ip2AsnStep)
        requires
            self.awaiting(),
        ensures
            resume_outcome(self, answer, r),
    {
        match answer {
            Err(e) => Ip2AsnStep::Done(Err(e)),
            Ok(infos) => {
                if infos.len() == 0 {
                    return Ip2AsnStep::Done(Err(Error::NoResultsFound));
                }
                let ghost all = origin_views(self.origins@);
                let ghost before = result_views(self.results@);
                let mut s = self;
                let m = merge_records(s.ip, &s.origins[s.next], &infos[0]);
                s.results.push(m);
                proof {
                    let k = s.next as int;
                    assert(all.take(k + 1).drop_last() =~= all.take(k));
                    assert(all.take(k + 1).last() == all[k]);
                    assert(result_views(s.results@) =~= before.push(m@));
                    assert(m@ == merged(s.ip, all[k], infos@[0]@));
                    assert(merged_from(m@, s.ip, all[k]));
                    let f = first_seen(all.take(k + 1));
                    assert(f == first_seen(all.take(k)).push(all[k]));
                    assert forall|j: int| 0 <= j < result_views(s.results@).len() implies merged_from(
                        #[trigger] result_views(s.results@)[j],
                        s.ip,
                        f[j],
                    ) by {
                        if j < before.len() {
                            assert(result_views(s.results@)[j] == before[j]);
                        }
                    }
                }
                s.next += 1;
                s.advance()
            },
        }
    }
}

/// `steps` is a run of a merged lookup of `ip` whose origin records are
/// `origins`: `steps[0]` is what `start` returned, and each `steps[i + 1]` is
/// what `resume` returned for the query of `steps[i]` and `answers[i]`.
pub open spec fn lookup_run(
    ip: IpAddress,
    origins: Seq<CymruOriginView>,
    steps: Seq<Ip2AsnStep>,
    answers: Seq<Result<Vec<CymruASN>, Error>>,
) -> bool {
    &&& steps.len() == answers.len() + 1
    &&& valid_step(ip, origins, steps[0])
    &&& (step_results(steps[0]) matches Some(x) ==> x.len() == 0)
    &&& forall|i: int|
        0 <= i < answers.len() ==> {
            &&& #[trigger] steps[i] is Query
            &&& resume_outcome(steps[i]->Query_0, answers[i], steps[i + 1])
        }
}

/// The AS number that step `i` asks for.
pub open spec fn queried(steps: Seq<Ip2AsnStep>, i: int) -> AsNumber {
    steps[i]->Query_1
}

proof fn lemma_run_prefix(
    ip: IpAddress,
    origins: Seq<CymruOriginView>,
    steps: Seq<Ip2AsnStep>,
    answers: Seq<Result<Vec<CymruASN>, Error>>,
    i: int,
)
    requires
        lookup_run(ip, origins, steps, answers),
        0 <= i <= answers.len(),
        !(steps[i] matches Ip2AsnStep::Done(Err(_))),
    ensures
        valid_step(ip, origins, steps[i]),
        step_results(steps[i]) is Some,
        step_results(steps[i])->Some_0.len() == i,
        forall|k: int|
            0 <= k < i ==> #[trigger] step_results(steps[i])->Some_0[k].as_number == queried(
                steps,
                k,
            ),
    decreases i,
{
    if i > 0 {
        let j = i - 1;
        assert(steps[j] is Query);
        assert(resume_outcome(steps[j]->Query_0, answers[j], steps[j + 1]));
        lemma_run_prefix(ip, origins, steps, answers, j);
        let s = steps[j]->Query_0;
        let rs = step_results(steps[j])->Some_0;
        let v = answers[j]->Ok_0;
        let m = merged(s.ip, s.origins@[s.next as int]@, v@[0]@);
        assert(step_results(steps[i]) == Some(rs.push(m)));
        assert(origin_views(s.origins@)[s.next as int] == s.origins@[s.next as int]@);
        assert forall|k: int| 0 <= k < i implies #[trigger] step_results(steps[i])->Some_0[k].as_number
            == queried(steps, k) by {
            if k < j {
                assert(rs.push(m)[k] == rs[k]);
            }
        }
    }
}

/// A whole merged lookup asks for each AS number at most once, and when it
/// succeeds it returns one result per AS number that it asked for, in the
/// order asked: exactly one result per distinct AS number of the origin
/// records, each carrying the fields of the first origin with that number.
pub proof fn lemma_lookup_run(
    ip: IpAddress,
    origins: Seq<CymruOriginView>,
    steps: Seq<Ip2AsnStep>,
    answers: Seq<Result<Vec<CymruASN>, Error>>,
)
    requires
        lookup_run(ip, origins, steps, answers),
    ensures
        forall|i: int, j: int|
            0 <= i < j < answers.len() ==> #[trigger] queried(steps, i) != #[trigger] queried(
                steps,
                j,
            ),
        steps.last() matches Ip2AsnStep::Done(Ok(v)) ==> {
            let r = result_views(v@);
            &&& merged_outcome(ip, origins, r)
            &&& r.len() == answers.len()
            &&& forall|k: int| 0 <= k < r.len() ==> #[trigger] r[k].as_number == queried(steps, k)
            &&& forall|a: int, b: int|
                0 <= a < b < r.len() ==> #[trigger] r[a].as_number != #[trigger] r[b].as_number
            &&& forall|x: int|
                0 <= x < origins.len() ==> exists|k: int|
                    0 <= k < r.len() && #[trigger] r[k].as_number == #[trigger] origins[x].as_number
            &&& forall|k: int|
                0 <= k < r.len() ==> exists|x: int|
                    0 <= x < origins.len() && is_first_of_its_as(origins, x) && merged_from(
                        #[trigger] r[k],
                        ip,
                        #[trigger] origins[x],
                    )
        },
{
    assert forall|i: int, j: int| 0 <= i < j < answers.len() implies #[trigger] queried(steps, i)
        != #[trigger] queried(steps, j) by {
        assert(steps[j] is Query);
        lemma_run_prefix(ip, origins, steps, answers, j);
        let s = steps[j]->Query_0;
        let rs = step_results(steps[j])->Some_0;
        let pre = origin_views(s.origins@).take(s.next as int);
        lemma_outcome_as_numbers(ip, pre, rs);
        assert(rs[i].as_number == queried(steps, i));
        assert(rs[i].as_number == first_seen(pre)[i].as_number);
        if queried(steps, i) == queried(steps, j) {
            assert(has_as_number(first_seen(pre), s.origins@[s.next as int].as_number));
        }
    }
    let n = answers.len() as int;
    match steps.last() {
        Ip2AsnStep::Done(Ok(v)) => {
            assert(steps[n] == steps.last());
            lemma_run_prefix(ip, origins, steps, answers, n);
            lemma_one_result_per_as_number(ip, origins, result_views(v@));
        },
        _ => {},
    }
}

} // verus!
