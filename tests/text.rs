use nix_autobahn::emit::{bash_script, fhs_shell, join_names, launcher_command, package_listing};
use nix_autobahn::names::{MissingLib, Package};
use nix_autobahn::normalize::normalize;
use nix_autobahn::resolve::resolve;
use nix_autobahn::scan::parse_ldd_output;

fn pkg(name: &str) -> Package {
    Package::new(name.to_string())
}

#[test]
fn fhs_expression_text() {
    let e = fhs_shell("/home/u/bin/tool", &vec![pkg("zlib.out"), pkg("openssl.out")]);
    assert_eq!(
        e,
        "with import <nixpkgs> {};\n  buildFHSUserEnv {\n    name = \"fhs\";\n    targetPkgs = p: with p; [ \n      zlib.out\n      openssl.out \n    ];\n    runScript = \"/home/u/bin/tool\";\n  }"
    );
}

#[test]
fn fhs_expression_without_packages() {
    let e = fhs_shell("/x", &Vec::new());
    assert!(e.contains("[ \n       \n    ];"));
    assert!(e.ends_with("runScript = \"/x\";\n  }"));
}

#[test]
fn launcher_and_script_text() {
    let c = launcher_command("EXPR");
    assert_eq!(c, "$(nix-build --no-out-link -E 'EXPR')/bin/fhs");
    assert_eq!(bash_script(&c), "#!/usr/bin/env bash\n\n$(nix-build --no-out-link -E 'EXPR')/bin/fhs");
}

#[test]
fn listing_and_join() {
    let ps = vec![pkg("a"), pkg("b.dev"), pkg("c")];
    assert_eq!(package_listing(&ps), "[ a b.dev c ]");
    assert_eq!(join_names(&ps, ", "), "a, b.dev, c");
    assert_eq!(join_names(&Vec::new(), ", "), "");
}

#[test]
fn package_from_origin() {
    assert_eq!(Package::from_origin("openssl_3_x", "out").name, "openssl_3_x.out");
}

#[test]
fn ldd_output_parsing() {
    let out = "\tlinux-vdso.so.1 (0x00007ffc)\n\tlibssl.so.3 => not found\n\tlibc.so.6 => /lib/libc.so.6 (0x7f)\n\t libcrypto.so.3  => not found\r\n";
    let libs = parse_ldd_output(out);
    assert_eq!(
        libs,
        vec![
            MissingLib::new("libssl.so.3".to_string()),
            MissingLib::new("libcrypto.so.3".to_string())
        ]
    );
}

#[test]
fn ldd_output_without_missing() {
    assert!(parse_ldd_output("").is_empty());
    assert!(parse_ldd_output("\tlibc.so.6 => /lib/libc.so.6\n").is_empty());
    assert_eq!(
        parse_ldd_output(" => not found"),
        vec![MissingLib::new(String::new())]
    );
}

#[test]
fn end_to_end_openssl() {
    let scanned = parse_ldd_output("\tlibssl.so.3 => not found\n");
    let missing = normalize(&Vec::new(), &scanned);
    assert_eq!(missing, vec![MissingLib::new("libssl.so.3".to_string())]);
    let lookups: Vec<(MissingLib, Vec<Package>)> = missing
        .iter()
        .map(|l| {
            assert_eq!(l.name, "libssl.so.3");
            (l.clone(), vec![pkg("openssl_3_x")])
        })
        .collect();
    let r = resolve(&lookups, &Vec::new()).unwrap();
    assert_eq!(r.included, vec![pkg("openssl_3_x")]);
    assert_eq!(
        r.records,
        vec![(pkg("openssl_3_x"), MissingLib::new("libssl.so.3".to_string()))]
    );
}
