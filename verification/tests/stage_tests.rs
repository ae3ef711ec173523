use elasticlab::stage::{removed_on_clear, resource_files, secret_contents, stage_listing};

#[test]
fn resource_files_fill_template() {
    let names = vec!["elasticlab-s3-1".to_string(), "elasticlab-s3-2".to_string()];
    let files = resource_files(&names, "resource \"aws_s3_bucket\" \"NAME\" {\n  bucket = \"NAME\"\n}\n");
    assert_eq!(files.len(), 2);
    assert_eq!(files[0].file_name, "elasticlab-s3-1.tf");
    assert_eq!(
        files[0].contents,
        "resource \"aws_s3_bucket\" \"elasticlab-s3-1\" {\n  bucket = \"elasticlab-s3-1\"\n}\n"
    );
    assert_eq!(files[1].file_name, "elasticlab-s3-2.tf");
}

#[test]
fn resource_files_without_resources() {
    assert!(resource_files(&Vec::new(), "NAME").is_empty());
}

#[test]
fn secret_contents_fills_keys() {
    assert_eq!(
        secret_contents("access_key = \"AK\"\nsecret_key = \"SK\"\n", "A1B2", "s3cr3t"),
        "access_key = \"A1B2\"\nsecret_key = \"s3cr3t\"\n"
    );
}

#[test]
fn secret_contents_replaces_in_order() {
    // The secret key is put in after the access key, so an `SK` inside the
    // access key is replaced too.
    assert_eq!(secret_contents("AK", "xSKx", "q"), "xqx");
}

#[test]
fn clearing_keeps_terraform_state() {
    assert!(!removed_on_clear("/home/u/.elasticlab/stage/terraform.tfstate", true));
    assert!(!removed_on_clear("/home/u/.elasticlab/stage/terraform.tfstate.backup", true));
    assert!(removed_on_clear("/home/u/.elasticlab/stage/elasticlab-s3-1.tf", true));
    assert!(!removed_on_clear("/home/u/.elasticlab/stage/.terraform", false));
}

#[test]
fn stage_listing_sorts_tf_files() {
    let names: Vec<String> = ["b.tf", "a.tf", "variables.tf", "notes.txt", "terraform.tfstate", ".terraform", "B.tf", "my-variables.tf"]
        .iter()
        .map(|s| s.to_string())
        .collect();
    assert_eq!(stage_listing(&names), "B.tf\na.tf\nb.tf\n");
}

#[test]
fn stage_listing_without_files() {
    assert_eq!(stage_listing(&Vec::new()), "No state.\n");
    let names = vec!["variables.tf".to_string(), "secret.tfvars".to_string()];
    assert_eq!(stage_listing(&names), "No state.\n");
}

#[test]
fn stage_listing_matches_byte_order() {
    let names: Vec<String> = ["zeta.tf", "alpha.tf", "é.tf", "e.tf", "alpha2.tf", "a.tf", "Z.tf"]
        .iter()
        .map(|s| s.to_string())
        .collect();
    let mut expected: Vec<String> = names.iter().map(|n| n.clone() + "\n").collect();
    expected.sort();
    assert_eq!(stage_listing(&names), expected.concat());
}
