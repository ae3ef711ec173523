use elasticlab::infra::Inf;
use elasticlab::lockfile::{make_resource_name, set_infrastructure, DynamoDB, Lockfile, EMR, S3};

fn names(l: &Lockfile, inf: Inf) -> Vec<String> {
    l.names(inf)
}

#[test]
fn empty_lockfile_has_no_state() {
    assert_eq!(Lockfile::default().display_string(), "No state.\n");
}

#[test]
fn set_s3_two_buckets() {
    let l = set_infrastructure(Lockfile::default(), Inf::S3, 2);
    assert_eq!(names(&l, Inf::S3), vec!["elasticlab-s3-1", "elasticlab-s3-2"]);
    assert!(l.dynamodb.is_empty());
    assert!(l.emr.is_empty());
    assert_eq!(
        l.display_string(),
        "S3 Buckets\n==========\n\nelasticlab-s3-1\nelasticlab-s3-2\n\n"
    );
}

#[test]
fn display_lists_each_service() {
    let l = Lockfile {
        dynamodb: vec![DynamoDB { name: "t1".to_string() }],
        emr: vec![EMR { name: "c1".to_string() }, EMR { name: "c2".to_string() }],
        s3: vec![S3 { name: "b1".to_string() }],
    };
    assert_eq!(
        l.display_string(),
        "DynamoDB Tables\n===============\n\nt1\n\nEMR Clusters\n============\n\nc1\nc2\n\nS3 Buckets\n==========\n\nb1\n\n"
    );
}

#[test]
fn set_keeps_other_services() {
    let l = set_infrastructure(Lockfile::default(), Inf::EMR, 1);
    let l = set_infrastructure(l, Inf::DynamoDB, 3);
    assert_eq!(names(&l, Inf::EMR), vec!["elasticlab-emr-1"]);
    assert_eq!(
        names(&l, Inf::DynamoDB),
        vec!["elasticlab-dynamodb-1", "elasticlab-dynamodb-2", "elasticlab-dynamodb-3"]
    );
    assert!(names(&l, Inf::S3).is_empty());
}

#[test]
fn set_last_wins() {
    let l = set_infrastructure(Lockfile::default(), Inf::S3, 6);
    let l = set_infrastructure(l, Inf::S3, 1);
    assert_eq!(names(&l, Inf::S3), vec!["elasticlab-s3-1"]);
    let l = set_infrastructure(l, Inf::S3, 0);
    assert!(names(&l, Inf::S3).is_empty());
    assert_eq!(l.display_string(), "No state.\n");
}

#[test]
fn set_commutes_across_services() {
    let a = set_infrastructure(set_infrastructure(Lockfile::default(), Inf::S3, 2), Inf::EMR, 1);
    let b = set_infrastructure(set_infrastructure(Lockfile::default(), Inf::EMR, 1), Inf::S3, 2);
    assert_eq!(a.display_string(), b.display_string());
}

#[test]
fn set_names_are_distinct() {
    let l = set_infrastructure(Lockfile::default(), Inf::DynamoDB, 255);
    let n = names(&l, Inf::DynamoDB);
    assert_eq!(n.len(), 255);
    assert_eq!(n[254], "elasticlab-dynamodb-255");
    let mut sorted = n.clone();
    sorted.sort();
    sorted.dedup();
    assert_eq!(sorted.len(), 255);
}

#[test]
fn resource_names_follow_format() {
    assert_eq!(make_resource_name(Inf::DynamoDB, 1), format!("elasticlab-dynamodb-{}", 1));
    assert_eq!(make_resource_name(Inf::EMR, 12), "elasticlab-emr-12");
    assert_eq!(make_resource_name(Inf::S3, 256), "elasticlab-s3-256");
}
