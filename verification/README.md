# elasticlab

`el` controls AWS data analytics infrastructure (DynamoDB tables, EMR
clusters, S3 buckets) through Terraform. This crate is its logic, verified
with Verus: `src/` holds the library (naming resources, editing and listing
the lockfile, filling the Terraform templates, choosing what of a plan to
show, and the paths of the work directory) with its contracts and laws.
`app/` is the command itself: argument parsing, files, the password prompt,
the JSON lockfile and the `terraform` runs.
