use elasticlab::infra::Inf;
use elasticlab::lockfile::{set_infrastructure, Lockfile};
use elasticlab::paths::{infra_dir_path, lock_file_path, secret_file_path, stage_dir_path};
use elasticlab::stage::{resource_files, stage_listing};
use elasticlab::text::replace;

#[test]
fn set_then_stage_names_files() {
    let l = set_infrastructure(Lockfile::default(), Inf::EMR, 3);
    let files = resource_files(&l.names(Inf::EMR), "cluster NAME");
    let names: Vec<&str> = files.iter().map(|f| f.file_name.as_str()).collect();
    assert_eq!(names, vec!["elasticlab-emr-1.tf", "elasticlab-emr-2.tf", "elasticlab-emr-3.tf"]);
    assert_eq!(files[2].contents, "cluster elasticlab-emr-3");
}

#[test]
fn template_without_name_is_unchanged() {
    assert_eq!(replace("variable \"region\" {}", "NAME", "x"), "variable \"region\" {}");
}

#[test]
fn work_entries_are_distinct() {
    let ws: [&[u8]; 4] = [b"/home/a/.elasticlab", b"", b"/", b"w/"];
    for w in ws {
        let ps = [infra_dir_path(w), lock_file_path(w), secret_file_path(w), stage_dir_path(w)];
        for i in 0..4 {
            for j in (i + 1)..4 {
                assert_ne!(ps[i], ps[j]);
            }
        }
    }
}

#[test]
fn set_import_get_stage() {
    // `el set s3 2`, then `el imp`, then `el get stage`.
    let template = "resource \"aws_s3_bucket\" \"NAME\" {}\n";
    let l = set_infrastructure(Lockfile::default(), Inf::S3, 2);
    let mut stage: Vec<String> = vec!["variables.tf".to_string()];
    for inf in [Inf::DynamoDB, Inf::EMR, Inf::S3] {
        for f in resource_files(&l.names(inf), template) {
            if inf == Inf::S3 {
                assert_eq!(f.contents, template.replace("NAME", &f.file_name[..f.file_name.len() - 3]));
            }
            stage.push(f.file_name);
        }
    }
    assert_eq!(stage.len(), 3);
    assert_eq!(stage_listing(&stage), "elasticlab-s3-1.tf\nelasticlab-s3-2.tf\n");
}
