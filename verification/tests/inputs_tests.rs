use nix_init::inputs::{
    write_all_lambda_inputs, write_input_list, write_inputs, write_lambda_input, AllInputs,
    Bucket, Inputs,
};

// Each distinct name appears in a bucket's emitted list exactly once, in
// lexicographic order, however often and in whatever order it was inserted.
#[test]
fn bucket_insert_dedup() {
    let mut inputs = Inputs::new();
    inputs.insert(Bucket::Always, "zlib");
    inputs.insert(Bucket::Always, "alsa-lib");
    inputs.insert(Bucket::Always, "zlib");
    inputs.insert(Bucket::Always, "curl");
    assert_eq!(
        inputs.always,
        vec!["alsa-lib".to_owned(), "curl".to_owned(), "zlib".to_owned()],
    );

    let mut other = Inputs::new();
    other.insert(Bucket::Always, "curl");
    other.insert(Bucket::Always, "zlib");
    other.insert(Bucket::Always, "zlib");
    other.insert(Bucket::Always, "alsa-lib");
    assert_eq!(inputs.always, other.always);

    let mut out = String::new();
    write_input_list(&mut out, &inputs.always);
    assert_eq!(out, "[\n    alsa-lib\n    curl\n    zlib\n  ]");
}

#[test]
fn inputs_field_emission() {
    let mut inputs = Inputs::new();
    inputs.insert(Bucket::Always, "curl");
    inputs.insert(Bucket::Linux, "alsa-lib");
    let mut out = String::new();
    write_inputs(&mut out, &inputs, "buildInputs");
    assert_eq!(
        out,
        "  buildInputs = [\n    curl\n  ] ++ lib.optionals stdenv.isLinux [\n    alsa-lib\n  ];\n\n",
    );

    let empty = Inputs::new();
    let mut out = String::new();
    write_inputs(&mut out, &empty, "buildInputs");
    assert_eq!(out, "  buildInputs =;\n\n");
}

// Across all buckets of both input sets combined, the argument list requests
// each name exactly once.
#[test]
fn lambda_inputs_dedup() {
    let mut inputs = AllInputs::new();
    inputs.native("cmake");
    inputs.build("cmake");
    inputs.build_on(Bucket::Darwin, "darwin.apple_sdk.frameworks.Cocoa");
    inputs.build_on(Bucket::Linux, "alsa-lib");
    let mut out = String::new();
    let mut written: Vec<String> = Vec::new();
    let (native, build) = write_all_lambda_inputs(&mut out, &inputs, &mut written);
    assert!(native);
    assert!(build);
    assert_eq!(out, ", cmake\n, stdenv\n, darwin\n, alsa-lib\n");

    let empty = AllInputs::new();
    let mut out = String::new();
    let mut written: Vec<String> = Vec::new();
    let (native, build) = write_all_lambda_inputs(&mut out, &empty, &mut written);
    assert!(!native);
    assert!(!build);
    assert_eq!(out, "");
}

#[test]
fn lambda_input_written_once() {
    let mut out = String::new();
    let mut written: Vec<String> = Vec::new();
    write_lambda_input(&mut out, &mut written, "rustPlatform");
    write_lambda_input(&mut out, &mut written, "rustPlatform");
    write_lambda_input(&mut out, &mut written, "cargo");
    assert_eq!(out, ", rustPlatform\n, cargo\n");
}

#[test]
fn env_last_write_wins() {
    let mut inputs = AllInputs::new();
    inputs.env_var("OPENSSL_NO_VENDOR", "true", Vec::new());
    inputs.env_var("CGO_CFLAGS", "\"-w\"", Vec::new());
    inputs.env_var("OPENSSL_NO_VENDOR", "false", Vec::new());
    assert_eq!(inputs.env.len(), 2);
    assert_eq!(inputs.env[0].name, "CGO_CFLAGS");
    assert_eq!(inputs.env[1].name, "OPENSSL_NO_VENDOR");
    assert_eq!(inputs.env[1].value, "false");
}
