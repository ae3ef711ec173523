use elasticlab::infra::{opt_line, Inf, Location, Opti};

#[test]
fn inf_parse_ignores_ascii_case() {
    assert_eq!(Inf::parse("s3"), Ok(Inf::S3));
    assert_eq!(Inf::parse("S3"), Ok(Inf::S3));
    assert_eq!(Inf::parse("DYNAMODB"), Ok(Inf::DynamoDB));
    assert_eq!(Inf::parse("dynamodb"), Ok(Inf::DynamoDB));
    assert_eq!(Inf::parse("Emr"), Ok(Inf::EMR));
}

#[test]
fn inf_parse_rejects_unknown() {
    assert_eq!(Inf::parse("rds"), Err("valid values: DynamoDB, EMR, S3".to_string()));
    assert_eq!(Inf::parse(""), Err("valid values: DynamoDB, EMR, S3".to_string()));
    assert_eq!(Inf::parse("s3 "), Err("valid values: DynamoDB, EMR, S3".to_string()));
}

#[test]
fn opti_and_location_parse() {
    assert_eq!(Opti::parse("readcapacity"), Ok(Opti::ReadCapacity));
    assert_eq!(Opti::parse("WRITECAPACITY"), Ok(Opti::WriteCapacity));
    assert_eq!(Opti::parse("capacity"), Err("valid values: ReadCapacity, WriteCapacity".to_string()));
    assert_eq!(Location::parse("aws"), Ok(Location::Aws));
    assert_eq!(Location::parse("Lock"), Ok(Location::Lock));
    assert_eq!(Location::parse("STAGE"), Ok(Location::Stage));
    assert_eq!(Location::parse("cloud"), Err("valid values: Aws, Lock, Stage".to_string()));
}

#[test]
fn names_parse_back() {
    for x in [Inf::DynamoDB, Inf::EMR, Inf::S3] {
        assert_eq!(Inf::parse(x.name()), Ok(x));
    }
    for x in [Opti::ReadCapacity, Opti::WriteCapacity] {
        assert_eq!(Opti::parse(x.name()), Ok(x));
    }
    for x in [Location::Aws, Location::Lock, Location::Stage] {
        assert_eq!(Location::parse(x.name()), Ok(x));
    }
}

#[test]
fn opt_line_reports_setting() {
    assert_eq!(opt_line(Inf::S3, 2, Opti::ReadCapacity, "5"), "S3 : 2 : ReadCapacity : 5");
    assert_eq!(
        opt_line(Inf::DynamoDB, 255, Opti::WriteCapacity, "ten"),
        "DynamoDB : 255 : WriteCapacity : ten"
    );
}
