use cymrust::{
    cymru_asn_from_answer, cymru_origin_from_answer, expires_at, merge_records, CymruASN,
    CymruIP2ASN, CymruOrigin, Date, Error, IpAddress, Ip2AsnLookup, Ip2AsnStep, TxtAnswer,
};

fn origin(as_number: u32, prefix: &str, expires: u64) -> CymruOrigin {
    CymruOrigin {
        as_number,
        bgp_prefix: prefix.to_string(),
        country_code: "US".to_string(),
        registry: "arin".to_string(),
        allocated: Some(Date { year: 2006, month: 2, day: 17 }),
        expires,
    }
}

fn info(as_number: u32, name: &str, expires: u64) -> CymruASN {
    CymruASN {
        as_number,
        country_code: "US".to_string(),
        registry: "arin".to_string(),
        allocated: None,
        as_name: name.to_string(),
        expires,
    }
}

fn io_error() -> Error {
    Error::from(std::io::Error::new(std::io::ErrorKind::Other, "unreachable"))
}

const IP: IpAddress = IpAddress::V4([192, 0, 2, 1]);

#[test]
fn expiry_adds_ttl() {
    assert_eq!(expires_at(100, 20), 120);
    assert_eq!(expires_at(u64::MAX - 1, 5), u64::MAX);
}

#[test]
fn merged_expiry_is_the_earlier() {
    let m = merge_records(IP, &origin(1, "192.0.2.0/24", 50), &info(1, "ONE", 80));
    assert_eq!(m.expires, 50);
    let m = merge_records(IP, &origin(1, "192.0.2.0/24", 90), &info(1, "ONE", 80));
    assert_eq!(m.expires, 80);
    assert_eq!(m.as_name, "ONE");
    assert_eq!(m.bgp_prefix, "192.0.2.0/24");
    assert_eq!(m.allocated, Some("2006-02-17".to_string()));
    assert_eq!(m.ip_addr, IP);
}

#[test]
fn asn_answer_parsed_with_expiry() {
    let answer = TxtAnswer {
        records: vec!["23028 | US | arin | 2002-01-04 | TEAMCYMRU - SAUNET".to_string()],
        ttl: 300,
    };
    let r = cymru_asn_from_answer(Ok(answer), 1000).unwrap();
    assert_eq!(r.len(), 1);
    assert_eq!(r[0].expires, 1300);
    assert_eq!(r[0].as_number, 23028);
}

#[test]
fn empty_answers_are_no_results() {
    let answer = TxtAnswer { records: vec!["".to_string()], ttl: 1 };
    assert!(matches!(cymru_asn_from_answer(Ok(answer), 0), Err(Error::NoResultsFound)));
    let answer = TxtAnswer { records: vec![], ttl: 1 };
    assert!(matches!(cymru_origin_from_answer(Ok(answer), 0), Err(Error::NoResultsFound)));
}

#[test]
fn resolver_failure_passes_through() {
    assert!(matches!(cymru_asn_from_answer(Err(io_error()), 0), Err(Error::Io(_))));
    assert!(matches!(cymru_origin_from_answer(Err(io_error()), 0), Err(Error::Io(_))));
}

#[test]
fn origin_answer_parsed_with_expiry() {
    let answer = TxtAnswer {
        records: vec!["1 2 | 203.0.113.0/24 | GB | ripencc | 2006-02-17".to_string()],
        ttl: 60,
    };
    let r = cymru_origin_from_answer(Ok(answer), 40).unwrap();
    assert_eq!(r.len(), 2);
    assert_eq!(r[1].as_number, 2);
    assert_eq!(r[1].expires, 100);
}

fn expect_query(step: Ip2AsnStep, n: u32) -> Ip2AsnLookup {
    match step {
        Ip2AsnStep::Query(s, asked) => {
            assert_eq!(asked, n);
            s
        }
        Ip2AsnStep::Done(_) => panic!("expected a query for AS {}", n),
    }
}

fn expect_done(step: Ip2AsnStep) -> Result<Vec<CymruIP2ASN>, Error> {
    match step {
        Ip2AsnStep::Done(r) => r,
        Ip2AsnStep::Query(_, n) => panic!("unexpected query for AS {}", n),
    }
}

#[test]
fn duplicate_as_numbers_merge_once() {
    let origins = vec![
        origin(1, "192.0.2.0/24", 100),
        origin(2, "192.0.0.0/16", 100),
        origin(1, "192.0.0.0/8", 100),
    ];
    let s = expect_query(Ip2AsnLookup::start(IP, Ok(origins)), 1);
    let s = expect_query(s.resume(Ok(vec![info(1, "ONE", 30)])), 2);
    let r = expect_done(s.resume(Ok(vec![info(2, "TWO", 300)]))).unwrap();
    assert_eq!(r.len(), 2);
    assert_eq!(r[0].as_number, 1);
    assert_eq!(r[0].bgp_prefix, "192.0.2.0/24");
    assert_eq!(r[0].as_name, "ONE");
    assert_eq!(r[0].expires, 30);
    assert_eq!(r[1].as_number, 2);
    assert_eq!(r[1].as_name, "TWO");
    assert_eq!(r[1].expires, 100);
}

#[test]
fn failed_as_query_fails_the_lookup() {
    let s = expect_query(Ip2AsnLookup::start(IP, Ok(vec![origin(7, "192.0.2.0/24", 10)])), 7);
    assert!(matches!(expect_done(s.resume(Err(io_error()))), Err(Error::Io(_))));
}

#[test]
fn later_failure_drops_earlier_results() {
    let origins = vec![origin(1, "192.0.2.0/24", 100), origin(2, "192.0.2.0/24", 100)];
    let s = expect_query(Ip2AsnLookup::start(IP, Ok(origins)), 1);
    let s = expect_query(s.resume(Ok(vec![info(1, "ONE", 30)])), 2);
    assert!(matches!(expect_done(s.resume(Ok(vec![]))), Err(Error::NoResultsFound)));
}

#[test]
fn origin_failure_or_nothing() {
    assert!(matches!(expect_done(Ip2AsnLookup::start(IP, Err(io_error()))), Err(Error::Io(_))));
    assert!(matches!(expect_done(Ip2AsnLookup::start(IP, Ok(vec![]))), Err(Error::NoResultsFound)));
}

#[test]
fn merged_allocation_date_text() {
    let mut o = origin(1, "192.0.2.0/24", 50);
    o.allocated = Some(Date { year: 998, month: 9, day: 5 });
    let m = merge_records(IP, &o, &info(1, "ONE", 80));
    assert_eq!(m.allocated, Some("0998-09-05".to_string()));
    o.allocated = None;
    let m = merge_records(IP, &o, &info(1, "ONE", 80));
    assert_eq!(m.allocated, None);
}
