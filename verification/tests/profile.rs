use starlume::profile::{
    citizen_record_from, enlisted_from, find_label_value, iso_date, normalize_enlisted, parse,
    profile_from, ProfileError,
};

// Synthetic fixture mirroring the structure of a live RSI citizen page.
const FIXTURE: &str = r#"
<!doctype html>
<html><body>
  <div class="profile-content overview-content clearfix">
    <p class="entry citizen-record">
      <span class="label">UEE Citizen Record</span>
      <strong class="value">#4242</strong>
    </p>
    <div class="profile left-col">
      <div class="info">
        <p class="entry"><strong class="value">DisplayName</strong></p>
        <p class="entry">
          <span class="label">Handle name</span>
          <strong class="value">TestUser</strong>
        </p>
      </div>
    </div>
    <div class="main-org right-col visibility-V">
      <div class="info">
        <p class="entry">
          <a href="/orgs/EXAMPLE" class="value">Example Org</a>
        </p>
        <p class="entry">
          <span class="label data1">Spectrum Identification (SID)</span>
          <strong class="value data13">EXAMPLE</strong>
        </p>
        <p class="entry">
          <span class="label data9">Organization rank</span>
          <strong class="value data4">Recruit</strong>
        </p>
      </div>
    </div>
    <div class="left-col">
      <div class="inner">
        <p class="entry">
          <span class="label">Enlisted</span>
          <strong class="value">Mar 14, 2015</strong>
        </p>
        <p class="entry">
          <span class="label">Location</span>
          <strong class="value">Germany</strong>
        </p>
      </div>
    </div>
  </div>
</body></html>
"#;

fn parse_message(err: &ProfileError) -> String {
    err.message()
}

#[test]
fn parses_full_profile() {
    let info = parse(FIXTURE).expect("parse");
    assert_eq!(info.handle, "TestUser");
    assert_eq!(info.citizen_record, 4242);
    assert_eq!(info.enlisted, "2015-03-14");
    assert_eq!(info.primary_org_sid.as_deref(), Some("EXAMPLE"));
    assert_eq!(info.primary_org_rank.as_deref(), Some("Recruit"));
}

#[test]
fn parses_orgless_profile() {
    // No main-org block at all → SID + rank both None, anchors still parse.
    let html = r#"
<!doctype html><html><body>
  <p class="entry citizen-record">
    <span class="label">UEE Citizen Record</span>
    <strong class="value">#7</strong>
  </p>
  <p class="entry">
    <span class="label">Handle name</span>
    <strong class="value">Loner</strong>
  </p>
  <p class="entry">
    <span class="label">Enlisted</span>
    <strong class="value">Dec 1, 2012</strong>
  </p>
</body></html>"#;
    let info = parse(html).expect("parse");
    assert_eq!(info.handle, "Loner");
    assert_eq!(info.citizen_record, 7);
    assert_eq!(info.enlisted, "2012-12-01");
    assert!(info.primary_org_sid.is_none());
    assert!(info.primary_org_rank.is_none());
}

#[test]
fn redacted_org_fields_become_none() {
    let html = r#"
<!doctype html><html><body>
  <p class="entry citizen-record"><span class="label">UEE Citizen Record</span><strong class="value">#1</strong></p>
  <p class="entry"><span class="label">Handle name</span><strong class="value">A</strong></p>
  <p class="entry"><span class="label">Enlisted</span><strong class="value">Jan 1, 2020</strong></p>
  <p class="entry"><span class="label">Spectrum Identification (SID)</span><strong class="value">REDACTED</strong></p>
</body></html>"#;
    let info = parse(html).expect("parse");
    assert!(info.primary_org_sid.is_none());
}

#[test]
fn missing_handle_errors() {
    let html = r#"<!doctype html><html><body>
  <p class="entry citizen-record"><span class="label">UEE Citizen Record</span><strong class="value">#1</strong></p>
  <p class="entry"><span class="label">Enlisted</span><strong class="value">Jan 1, 2020</strong></p>
</body></html>"#;
    let err = parse(html).unwrap_err();
    assert!(matches!(err, ProfileError::MissingField(ref f) if f == "Handle name"));
}

#[test]
fn missing_record_is_reported_first() {
    let err = parse("<html><body><p>nothing</p></body></html>").unwrap_err();
    assert!(matches!(err, ProfileError::MissingField(ref f) if f == "UEE Citizen Record"));
    assert_eq!(parse_message(&err), "missing field on profile page: UEE Citizen Record");
}

#[test]
fn citizen_record_digits_and_errors() {
    assert_eq!(citizen_record_from(Some("  #1196670 ".to_string())).unwrap(), 1196670);
    assert_eq!(citizen_record_from(Some("#00042".to_string())).unwrap(), 42);
    assert_eq!(
        citizen_record_from(Some("#9223372036854775807".to_string())).unwrap(),
        i64::MAX
    );
    match citizen_record_from(Some(" n/a ".to_string())) {
        Err(ProfileError::Parse { field, detail }) => {
            assert_eq!(field, "UEE Citizen Record");
            assert_eq!(detail, "`n/a` → cannot parse integer from empty string");
        }
        other => panic!("unexpected {other:?}"),
    }
    match citizen_record_from(Some("#9223372036854775808".to_string())) {
        Err(ProfileError::Parse { detail, .. }) => {
            assert_eq!(detail, "`#9223372036854775808` → number too large to fit in target type");
        }
        other => panic!("unexpected {other:?}"),
    }
    assert!(matches!(citizen_record_from(None), Err(ProfileError::MissingField(_))));
}

#[test]
fn label_lookup_skips_blocks_without_value() {
    let entries = vec![
        (None, Some("DisplayName".to_string())),
        (Some(" Handle name ".to_string()), None),
        (Some("Handle name".to_string()), Some("  First  ".to_string())),
        (Some("Handle name".to_string()), Some("Second".to_string())),
    ];
    assert_eq!(find_label_value(&entries, "Handle name").as_deref(), Some("First"));
    assert_eq!(find_label_value(&entries, "handle name"), None);
    assert_eq!(find_label_value(&entries, "Enlisted"), None);
}

#[test]
fn iso_dates_follow_year_padding() {
    assert_eq!(iso_date(2016, 1, 31), "2016-01-31");
    assert_eq!(iso_date(987, 12, 5), "0987-12-05");
    assert_eq!(iso_date(12345, 6, 7), "+12345-06-07");
    assert_eq!(iso_date(-44, 3, 15), "-0044-03-15");
}

#[test]
fn enlisted_dates_normalize_or_quote_the_text() {
    assert_eq!(normalize_enlisted("  Jan 31, 2016 ").unwrap(), "2016-01-31");
    match normalize_enlisted(" Foo 1, 2020 ") {
        Err(ProfileError::Parse { field, detail }) => {
            assert_eq!(field, "Enlisted");
            assert_eq!(detail, "`Foo 1, 2020` → input contains invalid characters");
        }
        other => panic!("unexpected {other:?}"),
    }
    let err = enlisted_from("x", Err("premature end of input".to_string())).unwrap_err();
    assert_eq!(parse_message(&err), "could not parse Enlisted: `x` → premature end of input");
    assert_eq!(enlisted_from("x", Ok((2020, 2, 9))).unwrap(), "2020-02-09");
}

fn entry(label: Option<&str>, value: Option<&str>) -> (Option<String>, Option<String>) {
    (label.map(|l| l.to_string()), value.map(|v| v.to_string()))
}

#[test]
fn profile_from_assembles_the_found_blocks() {
    let entries = vec![
        entry(None, Some("DisplayName")),
        entry(Some(" Handle name "), Some(" TestUser ")),
        entry(Some("Spectrum Identification (SID)"), Some("EXAMPLE")),
        entry(Some("Organization rank"), Some("REDACTED")),
        entry(Some("Enlisted"), Some("Jan 1, 2020")),
    ];
    let p = profile_from(Some("#4242".to_string()), &entries).expect("complete profile");
    assert_eq!(p.handle, "TestUser");
    assert_eq!(p.citizen_record, 4242);
    assert_eq!(p.enlisted, "2020-01-01");
    assert_eq!(p.primary_org_sid.as_deref(), Some("EXAMPLE"));
    assert_eq!(p.primary_org_rank, None);
}

#[test]
fn profile_from_names_the_first_missing_field() {
    let only_handle = vec![entry(Some("Handle name"), Some("TestUser"))];
    match profile_from(Some("#1".to_string()), &only_handle) {
        Err(ProfileError::MissingField(f)) => assert_eq!(f, "Enlisted"),
        _ => panic!("expected a missing Enlisted field"),
    }
    match profile_from(Some("#1".to_string()), &Vec::new()) {
        Err(ProfileError::MissingField(f)) => assert_eq!(f, "Handle name"),
        _ => panic!("expected a missing Handle name field"),
    }
}
