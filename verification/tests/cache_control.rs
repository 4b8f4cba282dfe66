use entity_cache::cache_control::age_told;
use entity_cache::cache_control::parse_directive;
use entity_cache::cache_control::parse_number;
use entity_cache::cache_control::parse_value;
use entity_cache::cache_control::trim;
use entity_cache::cache_control::CacheControl;
use entity_cache::cache_control::Directive;
use entity_cache::cache_control::ParseError;
use entity_cache::headers::HeaderList;

fn cc_headers(pairs: &[(&str, &str)]) -> HeaderList {
    let mut headers = HeaderList::new();
    for (name, value) in pairs {
        headers.append(name.to_string(), value.as_bytes().to_vec());
    }
    headers
}

fn cc(max_age: Option<u64>, age: u64) -> CacheControl {
    CacheControl { max_age, age, ..CacheControl::default() }
}

#[test]
fn default_has_no_directive() {
    let c = CacheControl::default();
    assert!(!c.no_store && !c.private && !c.must_revalidate);
    assert_eq!(c.max_age, None);
    assert_eq!(c.s_maxage, None);
    assert_eq!(c.stale_while_revalidate, None);
    assert_eq!(c.age, 0);
    assert!(c.silent());
}

#[test]
fn no_store_is_only_no_store() {
    let c = CacheControl::no_store();
    assert_eq!(c, CacheControl { no_store: true, ..CacheControl::default() });
    assert!(!c.should_store());
}

#[test]
fn parses_every_recognized_directive() {
    let headers = cc_headers(&[(
        "cache-control",
        "max-age=60, s-maxage=30, stale-while-revalidate=5, no-store, must-revalidate, private",
    )]);
    let c = CacheControl::parse(&headers, None).unwrap();
    assert_eq!(
        c,
        CacheControl {
            no_store: true,
            private: true,
            must_revalidate: true,
            max_age: Some(60),
            s_maxage: Some(30),
            stale_while_revalidate: Some(5),
            age: 0,
        }
    );
}

#[test]
fn header_name_is_matched_without_case() {
    let headers = cc_headers(&[("Cache-Control", "max-age=7")]);
    assert_eq!(CacheControl::from_headers(&headers, None), cc(Some(7), 0));
}

#[test]
fn several_headers_are_read_in_order() {
    let headers = cc_headers(&[
        ("cache-control", "max-age=60"),
        ("content-type", "application/json"),
        ("cache-control", "max-age=10,private"),
    ]);
    let c = CacheControl::from_headers(&headers, None);
    assert_eq!(c.max_age, Some(10));
    assert!(c.private);
}

#[test]
fn fallback_ttl_stands_in_for_max_age() {
    let headers = cc_headers(&[("cache-control", "private")]);
    let c = CacheControl::from_headers(&headers, Some(120));
    assert_eq!(c.max_age, Some(120));
    assert!(c.private);
    let named = cc_headers(&[("cache-control", "max-age=5")]);
    assert_eq!(CacheControl::from_headers(&named, Some(120)).max_age, Some(5));
}

#[test]
fn missing_header_means_no_store() {
    let headers = cc_headers(&[("content-type", "application/json")]);
    let c = CacheControl::from_headers(&headers, Some(120));
    assert!(c.no_store);
    assert!(!c.should_store());
}

#[test]
fn age_header_is_read() {
    let headers = cc_headers(&[("cache-control", "max-age=60"), ("age", " 25 ")]);
    let c = CacheControl::from_headers(&headers, None);
    assert_eq!(c, cc(Some(60), 25));
    assert_eq!(c.ttl(), Some(35));
}

#[test]
fn unrecognized_directives_are_skipped() {
    let headers = cc_headers(&[("cache-control", "public, max-age=60, immutable, foo=bar")]);
    assert_eq!(CacheControl::parse(&headers, None), Ok(cc(Some(60), 0)));
}

#[test]
fn malformed_directive_is_an_error() {
    assert_eq!(parse_directive(b""), Err(ParseError::Malformed));
    assert_eq!(parse_directive(b"   "), Err(ParseError::Malformed));
    assert_eq!(parse_directive(b"=5"), Err(ParseError::Malformed));
    assert_eq!(parse_directive(b"max-age=5=6"), Err(ParseError::Malformed));
    let headers = cc_headers(&[("cache-control", "max-age=60,")]);
    assert_eq!(CacheControl::parse(&headers, None), Err(ParseError::Malformed));
}

#[test]
fn missing_value_is_an_error() {
    assert_eq!(parse_directive(b"max-age"), Err(ParseError::MissingValue));
    assert_eq!(parse_directive(b"s-maxage"), Err(ParseError::MissingValue));
    assert_eq!(parse_directive(b"stale-while-revalidate"), Err(ParseError::MissingValue));
}

#[test]
fn unexpected_value_is_an_error() {
    assert_eq!(parse_directive(b"no-store=1"), Err(ParseError::UnexpectedValue));
    assert_eq!(parse_directive(b"private=x"), Err(ParseError::UnexpectedValue));
    assert_eq!(parse_directive(b"must-revalidate="), Err(ParseError::UnexpectedValue));
}

#[test]
fn invalid_number_is_an_error() {
    assert_eq!(parse_directive(b"max-age=abc"), Err(ParseError::InvalidNumber));
    assert_eq!(parse_directive(b"max-age="), Err(ParseError::InvalidNumber));
    assert_eq!(parse_directive(b"max-age=-1"), Err(ParseError::InvalidNumber));
    assert_eq!(
        parse_directive(b"max-age=18446744073709551616"),
        Err(ParseError::InvalidNumber)
    );
}

#[test]
fn invalid_age_is_an_error() {
    let headers = cc_headers(&[("cache-control", "max-age=60"), ("age", "soon")]);
    assert_eq!(CacheControl::parse(&headers, None), Err(ParseError::InvalidAge));
}

#[test]
fn unreadable_headers_count_as_no_store() {
    let headers = cc_headers(&[("cache-control", "max-age=abc")]);
    assert_eq!(CacheControl::from_headers(&headers, Some(10)), CacheControl::no_store());
}

#[test]
fn directives_are_read_one_by_one() {
    assert_eq!(parse_directive(b" max-age=60 "), Ok(Directive::MaxAge(60)));
    assert_eq!(parse_directive(b"s-maxage=0"), Ok(Directive::SMaxage(0)));
    assert_eq!(
        parse_directive(b"stale-while-revalidate=007"),
        Ok(Directive::StaleWhileRevalidate(7))
    );
    assert_eq!(parse_directive(b"no-store"), Ok(Directive::NoStore));
    assert_eq!(parse_directive(b"\tprivate"), Ok(Directive::Private));
    assert_eq!(parse_directive(b"must-revalidate"), Ok(Directive::MustRevalidate));
    assert_eq!(parse_directive(b"no-cache"), Ok(Directive::Unrecognized));
    assert_eq!(parse_directive(b"Max-Age=60"), Ok(Directive::Unrecognized));
}

#[test]
fn numbers_are_decimal_and_bounded() {
    assert_eq!(parse_number(b"0"), Some(0));
    assert_eq!(parse_number(b"18446744073709551615"), Some(u64::MAX));
    assert_eq!(parse_number(b"18446744073709551616"), None);
    assert_eq!(parse_number(b"99999999999999999999999"), None);
    assert_eq!(parse_number(b""), None);
    assert_eq!(parse_number(b"1 2"), None);
    assert_eq!(parse_number(b"+1"), None);
}

#[test]
fn trim_takes_spaces_and_tabs_off_both_ends() {
    assert_eq!(trim(b"  a b\t "), b"a b");
    assert_eq!(trim(b"   "), b"");
    assert_eq!(trim(b""), b"");
    assert_eq!(trim(b"x"), b"x");
}

#[test]
fn parse_value_stops_at_the_first_error() {
    let start = CacheControl::default();
    assert_eq!(parse_value(b"max-age=1,private=2,max-age=x", start), Err(ParseError::UnexpectedValue));
    assert_eq!(parse_value(b"max-age=1 , private", start).unwrap().max_age, Some(1));
}

#[test]
fn ttl_is_what_is_left_of_the_lifetime() {
    assert_eq!(cc(Some(60), 0).ttl(), Some(60));
    assert_eq!(cc(Some(60), 59).ttl(), Some(1));
    assert_eq!(cc(Some(60), 60).ttl(), Some(0));
    assert_eq!(cc(Some(60), 100).ttl(), Some(0));
    assert_eq!(cc(None, 100).ttl(), None);
    let shared = CacheControl { s_maxage: Some(10), ..cc(Some(60), 4) };
    assert_eq!(shared.ttl(), Some(6));
}

#[test]
fn can_use_while_age_is_below_the_lifetime() {
    assert!(cc(Some(60), 59).can_use());
    assert!(!cc(Some(60), 60).can_use());
    assert!(!cc(Some(0), 0).can_use());
    assert!(cc(None, 1000).can_use());
    let shared = CacheControl { s_maxage: Some(10), ..cc(Some(60), 10) };
    assert!(!shared.can_use());
}

#[test]
fn should_store_unless_no_store() {
    assert!(cc(Some(60), 0).should_store());
    assert!(CacheControl { private: true, ..cc(None, 0) }.should_store());
    assert!(!CacheControl { no_store: true, ..cc(Some(60), 0) }.should_store());
}

#[test]
fn aged_adds_seconds_and_saturates() {
    assert_eq!(cc(Some(60), 5).aged(10), cc(Some(60), 15));
    assert_eq!(cc(Some(60), 5).aged(0), cc(Some(60), 5));
    assert_eq!(cc(Some(60), u64::MAX - 1).aged(10).age, u64::MAX);
}

#[test]
fn merge_takes_least_remaining_and_greatest_age() {
    let a = CacheControl { private: true, ..cc(Some(60), 50) };
    let b = CacheControl { stale_while_revalidate: Some(5), ..cc(Some(30), 0) };
    let m = a.merge(&b);
    assert_eq!(m.age, 50);
    assert_eq!(m.ttl(), Some(10));
    assert_eq!(m.max_age, Some(60));
    assert_eq!(m.s_maxage, None);
    assert_eq!(m.stale_while_revalidate, Some(5));
    assert!(m.private);
    assert!(!m.no_store);
}

#[test]
fn merge_uses_the_shared_lifetime_where_present() {
    let a = CacheControl { s_maxage: Some(100), ..cc(Some(10), 0) };
    let b = cc(Some(50), 0);
    assert_eq!(a.merge(&b).ttl(), Some(50));
    let c = CacheControl { s_maxage: Some(5), ..cc(Some(100), 0) };
    assert_eq!(c.merge(&b).ttl(), Some(5));
}

#[test]
fn merge_with_no_store_is_no_store() {
    let x = CacheControl { private: true, must_revalidate: true, ..cc(Some(60), 5) };
    assert_eq!(CacheControl::no_store().merge(&x), CacheControl::no_store());
    assert_eq!(x.merge(&CacheControl::no_store()), CacheControl::no_store());
}

#[test]
fn merge_is_commutative_and_associative_on_samples() {
    let samples = [
        CacheControl::default(),
        CacheControl::no_store(),
        cc(Some(60), 50),
        cc(Some(30), 0),
        CacheControl { s_maxage: Some(5), private: true, ..cc(Some(100), 3) },
        CacheControl { must_revalidate: true, stale_while_revalidate: Some(9), ..cc(None, 7) },
        cc(Some(u64::MAX), 0),
        cc(None, u64::MAX),
    ];
    for a in samples.iter() {
        for b in samples.iter() {
            assert_eq!(a.merge(b), b.merge(a));
            for c in samples.iter() {
                assert_eq!(a.merge(b).merge(c), a.merge(&b.merge(c)));
            }
        }
    }
}

#[test]
fn merge_without_any_lifetime_has_none() {
    let a = CacheControl { private: true, ..cc(None, 3) };
    let b = cc(None, 9);
    let m = a.merge(&b);
    assert_eq!(m.max_age, None);
    assert_eq!(m.ttl(), None);
    assert_eq!(m.age, 9);
}

#[test]
fn header_value_lists_directives_in_fixed_order() {
    let c = CacheControl {
        no_store: true,
        private: true,
        must_revalidate: true,
        max_age: Some(60),
        s_maxage: Some(30),
        stale_while_revalidate: Some(5),
        age: 0,
    };
    assert_eq!(
        c.header_value(),
        b"max-age=60,s-maxage=30,stale-while-revalidate=5,no-store,must-revalidate,private".to_vec()
    );
}

#[test]
fn header_value_writes_what_is_left() {
    assert_eq!(cc(Some(60), 50).header_value(), b"max-age=10".to_vec());
    assert_eq!(cc(Some(60), 70).header_value(), b"max-age=0".to_vec());
    assert_eq!(
        CacheControl { private: true, ..cc(Some(1234567890), 0) }.header_value(),
        b"max-age=1234567890,private".to_vec()
    );
    assert_eq!(CacheControl::default().header_value(), Vec::<u8>::new());
    assert_eq!(CacheControl::no_store().header_value(), b"no-store".to_vec());
}

#[test]
fn to_headers_replaces_cache_control_only() {
    let mut headers = cc_headers(&[
        ("content-type", "application/json"),
        ("cache-control", "max-age=1"),
        ("Age", "3"),
        ("Cache-Control", "private"),
    ]);
    CacheControl { private: true, ..cc(Some(60), 20) }.to_headers(&mut headers);
    let expected = cc_headers(&[
        ("content-type", "application/json"),
        ("Age", "3"),
        ("cache-control", "max-age=43,private"),
    ]);
    assert_eq!(headers, expected);
    let read = CacheControl::parse(&headers, None).unwrap();
    assert_eq!(read.ttl(), CacheControl { private: true, ..cc(Some(60), 20) }.ttl());
}

#[test]
fn header_value_counts_only_the_age_that_is_not_told() {
    let c = CacheControl { s_maxage: Some(100), ..cc(Some(60), 20) };
    assert_eq!(c.header_value_beside(0), b"max-age=40,s-maxage=80".to_vec());
    assert_eq!(c.header_value_beside(0), c.header_value());
    assert_eq!(c.header_value_beside(5), b"max-age=45,s-maxage=85".to_vec());
    assert_eq!(c.header_value_beside(20), b"max-age=60,s-maxage=100".to_vec());
    assert_eq!(c.header_value_beside(500), b"max-age=60,s-maxage=100".to_vec());
    assert_eq!(cc(Some(10), 50).header_value_beside(20), b"max-age=0".to_vec());
}

#[test]
fn age_told_is_that_of_the_first_readable_age_header() {
    assert_eq!(age_told(&cc_headers(&[("x", "1")])), 0);
    assert_eq!(age_told(&cc_headers(&[("Age", " 17 "), ("age", "3")])), 17);
    assert_eq!(age_told(&cc_headers(&[("age", "soon")])), 0);
}

#[test]
fn read_written_and_read_again_is_what_was_read() {
    let samples: [&[(&str, &str)]; 5] = [
        &[("cache-control", "max-age=60")],
        &[("cache-control", "max-age=60, private"), ("age", "25")],
        &[("age", "100"), ("cache-control", "s-maxage=30,max-age=60,stale-while-revalidate=5")],
        &[("cache-control", "no-store"), ("content-type", "application/json"), ("age", "1")],
        &[("cache-control", "public, must-revalidate"), ("cache-control", "max-age=0")],
    ];
    for sample in samples {
        let before = cc_headers(sample);
        let read = CacheControl::parse(&before, None).unwrap();
        let mut after = cc_headers(sample);
        read.to_headers(&mut after);
        assert_eq!(CacheControl::parse(&after, None), Ok(read));
        assert_eq!(after.values("age"), before.values("age"));
        assert_eq!(after.values("content-type"), before.values("content-type"));
        assert_eq!(after.values("cache-control").len(), 1);
    }
    let mut kept = cc_headers(&[("cache-control", "max-age=60, private"), ("age", "25")]);
    let read = CacheControl::from_headers(&kept, None);
    read.to_headers(&mut kept);
    assert_eq!(kept.values("cache-control"), vec![b"max-age=60,private".to_vec()]);
}

#[test]
fn to_headers_writes_nothing_for_no_directive() {
    let mut headers = cc_headers(&[("cache-control", "max-age=1"), ("x", "y")]);
    CacheControl::default().to_headers(&mut headers);
    assert_eq!(headers, cc_headers(&[("x", "y")]));
}

#[test]
fn written_headers_read_back() {
    let samples = [
        cc(Some(60), 0),
        CacheControl { private: true, ..cc(Some(60), 0) },
        CacheControl::no_store(),
        CacheControl {
            no_store: true,
            private: true,
            must_revalidate: true,
            max_age: Some(0),
            s_maxage: Some(u64::MAX),
            stale_while_revalidate: Some(17),
            age: 0,
        },
        CacheControl { must_revalidate: true, ..CacheControl::default() },
    ];
    for c in samples.iter() {
        let mut headers = cc_headers(&[("x", "12"), ("cache-control", "max-age=999")]);
        c.to_headers(&mut headers);
        assert_eq!(CacheControl::parse(&headers, None), Ok(*c));
        let mut aged = cc_headers(&[("age", "12"), ("cache-control", "max-age=999")]);
        c.to_headers(&mut aged);
        assert_eq!(CacheControl::parse(&aged, None), Ok(CacheControl { age: 12, ..*c }));
    }
}

#[test]
fn read_then_written_keeps_recognized_directives() {
    let headers = cc_headers(&[(
        "cache-control",
        "public, max-age=60, s-maxage=30, stale-while-revalidate=5, must-revalidate, private",
    )]);
    let c = CacheControl::from_headers(&headers, None);
    let mut out = HeaderList::new();
    c.to_headers(&mut out);
    assert_eq!(CacheControl::from_headers(&out, None), c);
    assert_eq!(
        out.values("cache-control"),
        vec![b"max-age=60,s-maxage=30,stale-while-revalidate=5,must-revalidate,private".to_vec()]
    );
}

#[test]
fn written_lifetimes_are_rebased_by_age() {
    let c = CacheControl { s_maxage: Some(30), ..cc(Some(60), 20) };
    let mut headers = HeaderList::new();
    c.to_headers(&mut headers);
    let back = CacheControl::from_headers(&headers, None);
    assert_eq!(back, CacheControl { s_maxage: Some(10), ..cc(Some(40), 0) });
    assert_eq!(back.ttl(), c.ttl());
}
