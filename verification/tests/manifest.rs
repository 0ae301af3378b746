use minios::abi::manifest::{
    Manifest, ManifestArgs, ManifestError, ManifestImage, ManifestImages, MANIFEST_MAX_LEN,
};

fn collect_args<'a>(mut args: ManifestArgs<'a>) -> Vec<&'a str> {
    let mut out = Vec::new();
    while let Some(arg) = args.next() {
        out.push(arg);
    }
    out
}

fn collect_images<'a>(mut images: ManifestImages<'a>) -> Vec<ManifestImage<'a>> {
    let mut out = Vec::new();
    while let Some(image) = images.next() {
        out.push(image);
    }
    out
}

fn a_run(n: usize) -> String {
    "a".repeat(n)
}

#[test]
fn parses_name_and_reiterable_arguments() {
    let bytes = b"version=1\nname=hello\narg=first\narg=second\n";

    let manifest = Manifest::parse(bytes).unwrap();

    assert_eq!(manifest.name(), "hello");
    assert_eq!(collect_args(manifest.args()), vec!["first", "second"]);
    assert_eq!(collect_args(manifest.args()), vec!["first", "second"]);
}

#[test]
fn name_and_arguments_borrow_from_source() {
    let bytes = b"version=1\nname=hello\narg=first\n";

    let manifest = Manifest::parse(bytes).unwrap();
    let argument = manifest.args().next().unwrap();

    assert_eq!(manifest.name().as_ptr(), bytes[15..20].as_ptr());
    assert_eq!(argument.as_ptr(), bytes[25..30].as_ptr());
}

#[test]
fn accepts_name_at_128_byte_limit() {
    let text = format!("version=1\nname={}\n", a_run(128));
    let bytes = text.as_bytes();

    assert_eq!(Manifest::parse(bytes).unwrap().name().len(), 128);
}

#[test]
fn accepts_allowed_name_punctuation() {
    let bytes = b"version=1\nname=hello.world_1-test\n";

    assert_eq!(Manifest::parse(bytes).unwrap().name(), "hello.world_1-test");
}

#[test]
fn rejects_crlf_version_line() {
    let bytes = b"version=1\r\nname=hello\n";

    assert_eq!(Manifest::parse(bytes), Err(ManifestError::MissingVersion));
}

#[test]
fn rejects_crlf_name_line() {
    let bytes = b"version=1\nname=hello\r\narg=first\n";

    assert_eq!(Manifest::parse(bytes), Err(ManifestError::InvalidName));
}

#[test]
fn rejects_crlf_name_length_bypass() {
    let text = format!("version=1\nname={}\r\narg=first\n", a_run(128));
    let bytes = text.as_bytes();

    assert_eq!(Manifest::parse(bytes), Err(ManifestError::NameTooLong));
}

#[test]
fn rejects_crlf_argument_length_bypass() {
    let text = format!("version=1\nname=hello\narg={}\r\narg=tail\n", a_run(256));
    let bytes = text.as_bytes();

    assert_eq!(Manifest::parse(bytes), Err(ManifestError::ArgumentTooLong));
}

#[test]
fn rejects_carriage_return_in_argument() {
    let bytes = b"version=1\nname=hello\narg=first\r\narg=second\n";

    assert_eq!(
        Manifest::parse(bytes),
        Err(ManifestError::ArgumentContainsCarriageReturn)
    );
}

#[test]
fn accepts_16_arguments() {
    let bytes = b"version=1\nname=hello\n\
arg=\narg=\narg=\narg=\narg=\narg=\narg=\narg=\n\
arg=\narg=\narg=\narg=\narg=\narg=\narg=\narg=\n";

    assert_eq!(collect_args(Manifest::parse(bytes).unwrap().args()).len(), 16);
}

#[test]
fn accepts_argument_at_256_byte_limit() {
    let text = format!("version=1\nname=hello\narg={}\n", a_run(256));
    let bytes = text.as_bytes();

    assert_eq!(
        Manifest::parse(bytes).unwrap().args().next().unwrap().len(),
        256
    );
}

#[test]
fn accepts_manifest_at_four_kibibyte_limit() {
    let mut source = String::from("version=1\nname=a\n");
    for _ in 0..15 {
        source.push_str("arg=");
        source.push_str(&"a".repeat(256));
        source.push('\n');
    }
    source.push_str("arg=");
    source.push_str(&"a".repeat(159));
    source.push('\n');
    assert_eq!(source.len(), 4_096);

    let manifest = Manifest::parse(source.as_bytes()).unwrap();

    assert_eq!(manifest.name(), "a");
    assert_eq!(collect_args(manifest.args()).len(), 16);
}

#[test]
fn rejects_manifest_larger_than_four_kibibytes() {
    let bytes = [b'a'; MANIFEST_MAX_LEN + 1];

    assert_eq!(Manifest::parse(&bytes), Err(ManifestError::TooLong));
}

#[test]
fn rejects_invalid_utf8() {
    let bytes = b"version=1\nname=hello\narg=\xff\n";

    assert_eq!(Manifest::parse(bytes), Err(ManifestError::InvalidUtf8));
}

#[test]
fn rejects_manifest_without_trailing_lf() {
    let bytes = b"version=1\nname=hello";

    assert_eq!(
        Manifest::parse(bytes),
        Err(ManifestError::MissingTrailingLf)
    );
}

#[test]
fn rejects_missing_version_line() {
    let bytes = b"\n";

    assert_eq!(Manifest::parse(bytes), Err(ManifestError::MissingVersion));
}

#[test]
fn rejects_non_v1_version() {
    let bytes = b"version=3\nname=hello\n";

    assert_eq!(Manifest::parse(bytes), Err(ManifestError::MissingVersion));
}

#[test]
fn v2_rejects_v1_style_name_line() {
    let bytes = b"version=2\nname=hello\n";

    assert_eq!(Manifest::parse(bytes), Err(ManifestError::UnknownKey));
}

#[test]
fn v2_parses_multiple_images_with_args_and_elf_ranges() {
    let bytes = b"version=2\n\
image=spin\narg=slow\narg=fast\nelf=0,4096\n\
image=cat\nelf=4096,2048\n";

    let manifest = Manifest::parse(bytes).unwrap();
    assert_eq!(manifest.version(), 2);
    assert_eq!(manifest.name(), "spin");

    let images = collect_images(manifest.images());
    assert_eq!(images.len(), 2);
    assert_eq!(images[0].name(), "spin");
    assert_eq!(collect_args(images[0].args()), vec!["slow", "fast"]);
    assert_eq!(images[0].elf(), Some(0..4096));
    assert_eq!(images[1].name(), "cat");
    assert_eq!(collect_args(images[1].args()).len(), 0);
    assert_eq!(images[1].elf(), Some(4096..6144));
}

#[test]
fn v1_yields_a_single_image_spanning_the_whole_elf_area() {
    let bytes = b"version=1\nname=hello\narg=first\narg=second\n";

    let manifest = Manifest::parse(bytes).unwrap();
    let images = collect_images(manifest.images());

    assert_eq!(images.len(), 1);
    assert_eq!(images[0].name(), "hello");
    assert_eq!(collect_args(images[0].args()), vec!["first", "second"]);
    assert_eq!(images[0].elf(), None);
}

#[test]
fn v2_rejects_a_manifest_without_any_image() {
    let bytes = b"version=2\n";

    assert_eq!(Manifest::parse(bytes), Err(ManifestError::MissingImage));
}

#[test]
fn v2_rejects_an_image_without_an_elf_range() {
    for bytes in [
        b"version=2\nimage=a\n".as_slice(),
        b"version=2\nimage=a\nelf=0,4\nimage=b\n".as_slice(),
    ] {
        assert_eq!(Manifest::parse(bytes), Err(ManifestError::MissingElf));
    }
}

#[test]
fn v2_rejects_a_fifth_image() {
    let bytes = b"version=2\n\
image=a\nelf=0,4\nimage=b\nelf=4,4\nimage=c\nelf=8,4\n\
image=d\nelf=12,4\nimage=e\nelf=16,4\n";

    assert_eq!(Manifest::parse(bytes), Err(ManifestError::TooManyImages));
}

#[test]
fn v2_rejects_malformed_elf_ranges() {
    for spec in [
        "elf=",
        "elf=0",
        "elf=,4",
        "elf=0,",
        "elf=a,4",
        "elf=0,4x",
        "elf=0,0",
        "elf=0,1,2",
    ] {
        let text = format!("version=2\nimage=a\n{spec}\n");
        assert_eq!(
            Manifest::parse(text.as_bytes()),
            Err(ManifestError::MalformedElf),
            "spec={spec}"
        );
    }
    let overflow = b"version=2\nimage=a\nelf=18446744073709551615,1\n";
    assert_eq!(Manifest::parse(overflow), Err(ManifestError::MalformedElf));
}

#[test]
fn v2_rejects_overlapping_elf_ranges() {
    let bytes = b"version=2\nimage=a\nelf=0,4096\nimage=b\nelf=2048,4096\n";

    assert_eq!(
        Manifest::parse(bytes),
        Err(ManifestError::OverlappingElfRange)
    );

    let bytes = b"version=2\nimage=a\nelf=0,4096\nimage=b\nelf=4096,4096\n";
    assert!(Manifest::parse(bytes).is_ok());
}

#[test]
fn v2_rejects_keys_outside_image_sections() {
    assert_eq!(
        Manifest::parse(b"version=2\nelf=0,4\nimage=a\nelf=4,4\n"),
        Err(ManifestError::InvalidOrder)
    );
    assert_eq!(
        Manifest::parse(b"version=2\narg=x\nimage=a\nelf=0,4\n"),
        Err(ManifestError::InvalidOrder)
    );
    assert_eq!(
        Manifest::parse(b"version=2\nimage=a\nelf=0,4\narg=x\n"),
        Err(ManifestError::InvalidOrder)
    );
    assert_eq!(
        Manifest::parse(b"version=2\nimage=a\nelf=0,4\nelf=4,4\n"),
        Err(ManifestError::InvalidOrder)
    );
}

#[test]
fn v2_rejects_duplicate_version_and_unknown_keys() {
    assert_eq!(
        Manifest::parse(b"version=2\nimage=a\nelf=0,4\nversion=2\n"),
        Err(ManifestError::DuplicateVersion)
    );
    assert_eq!(
        Manifest::parse(b"version=2\nimage=a\nelf=0,4\nenv=K=V\n"),
        Err(ManifestError::UnknownKey)
    );
}

#[test]
fn v2_applies_per_image_argument_limits() {
    let mut text = String::from("version=2\nimage=a\n");
    for _ in 0..17 {
        text.push_str("arg=x\n");
    }
    text.push_str("elf=0,4\n");

    assert_eq!(
        Manifest::parse(text.as_bytes()),
        Err(ManifestError::TooManyArgs)
    );
}

#[test]
fn v2_rejects_an_empty_image_name() {
    assert_eq!(
        Manifest::parse(b"version=2\nimage=\nelf=0,4\n"),
        Err(ManifestError::EmptyName)
    );
    assert_eq!(
        Manifest::parse(b"version=2\nimage=a b\nelf=0,4\n"),
        Err(ManifestError::InvalidName)
    );
}

#[test]
fn rejects_duplicate_version_line() {
    let bytes = b"version=1\nname=hello\nversion=1\n";

    assert_eq!(Manifest::parse(bytes), Err(ManifestError::DuplicateVersion));
}

#[test]
fn rejects_version_and_name_in_the_wrong_order() {
    let bytes = b"name=hello\nversion=1\n";

    assert_eq!(Manifest::parse(bytes), Err(ManifestError::InvalidOrder));
}

#[test]
fn rejects_missing_name_line() {
    let bytes = b"version=1\n";

    assert_eq!(Manifest::parse(bytes), Err(ManifestError::MissingName));
}

#[test]
fn rejects_empty_name() {
    let bytes = b"version=1\nname=\n";

    assert_eq!(Manifest::parse(bytes), Err(ManifestError::EmptyName));
}

#[test]
fn rejects_name_larger_than_128_bytes() {
    let text = format!("version=1\nname={}\n", a_run(129));
    let bytes = text.as_bytes();

    assert_eq!(Manifest::parse(bytes), Err(ManifestError::NameTooLong));
}

#[test]
fn rejects_forbidden_character_in_name() {
    let bytes = b"version=1\nname=hello world\n";

    assert_eq!(Manifest::parse(bytes), Err(ManifestError::InvalidName));
}

#[test]
fn rejects_unknown_key() {
    let bytes = b"version=1\nname=hello\nenv=KEY=value\n";

    assert_eq!(Manifest::parse(bytes), Err(ManifestError::UnknownKey));
}

#[test]
fn rejects_blank_line_after_name() {
    let bytes = b"version=1\nname=hello\n\n";

    assert_eq!(Manifest::parse(bytes), Err(ManifestError::UnknownKey));
}

#[test]
fn rejects_more_than_16_arguments() {
    let bytes = b"version=1\nname=hello\n\
arg=\narg=\narg=\narg=\narg=\narg=\narg=\narg=\n\
arg=\narg=\narg=\narg=\narg=\narg=\narg=\narg=\narg=\n";

    assert_eq!(Manifest::parse(bytes), Err(ManifestError::TooManyArgs));
}

#[test]
fn rejects_argument_larger_than_256_bytes() {
    let text = format!("version=1\nname=hello\narg={}\n", a_run(257));
    let bytes = text.as_bytes();

    assert_eq!(Manifest::parse(bytes), Err(ManifestError::ArgumentTooLong));
}

#[test]
fn rejects_nul_in_argument() {
    let bytes = b"version=1\nname=hello\narg=before\0after\n";

    assert_eq!(
        Manifest::parse(bytes),
        Err(ManifestError::ArgumentContainsNul)
    );
}

#[test]
fn manifest_args_run_out_and_stay_out() {
    let manifest = Manifest::parse(b"version=1\nname=hello\narg=only\n").unwrap();
    let mut args = manifest.args();
    assert_eq!(args.next(), Some("only"));
    assert_eq!(args.next(), None);
    assert_eq!(args.next(), None);
}

#[test]
fn v2_name_is_the_first_image_and_args_are_its_arguments() {
    let bytes = b"version=2\nimage=first\narg=one\nelf=8,8\nimage=second\narg=two\nelf=0,8\n";
    let manifest = Manifest::parse(bytes).unwrap();
    assert_eq!(manifest.name(), "first");
    assert_eq!(collect_args(manifest.args()), vec!["one"]);
    let images = collect_images(manifest.images());
    assert_eq!(images[1].elf(), Some(0..8));
}
