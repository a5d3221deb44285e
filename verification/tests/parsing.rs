use convolver::decimal::Decimal;
use convolver::kernel_spec::{Aggregation, Direction, KernelSpec, Kind, ParseError};
use convolver::library::KernelLibrary;
use convolver::weights::Weights;

fn read(text: &str) -> Result<KernelSpec, ParseError> {
    KernelSpec::from_str(text, &KernelLibrary::standard())
}

#[test]
fn fixed_kinds_are_read() {
    assert_eq!(read("3-none"), Ok(KernelSpec { size: 3, kind: Kind::Fixed(Aggregation::Identity) }));
    assert_eq!(read("5-blur"), Ok(KernelSpec { size: 5, kind: Kind::Fixed(Aggregation::Blur) }));
    assert_eq!(read("7-min"), Ok(KernelSpec { size: 7, kind: Kind::Fixed(Aggregation::Min) }));
    assert_eq!(read("1-median"), Ok(KernelSpec { size: 1, kind: Kind::Fixed(Aggregation::Median) }));
    assert_eq!(read("9-max"), Ok(KernelSpec { size: 9, kind: Kind::Fixed(Aggregation::Max) }));
    assert_eq!(read("3-inner"), Ok(KernelSpec { size: 3, kind: Kind::Fixed(Aggregation::Inner) }));
}

#[test]
fn parts_are_trimmed() {
    assert_eq!(
        read(" 5 - blur "),
        Ok(KernelSpec { size: 5, kind: Kind::Fixed(Aggregation::Blur) })
    );
    assert_eq!(
        read("\t3 -\tgauss - blur\n- 2.5 "),
        Ok(KernelSpec { size: 3, kind: Kind::GaussBlur(Decimal { mantissa: 25, scale: 1 }) })
    );
}

#[test]
fn further_parts_are_ignored() {
    assert_eq!(
        read("3-blur-whatever-else"),
        Ok(KernelSpec { size: 3, kind: Kind::Fixed(Aggregation::Blur) })
    );
}

#[test]
fn size_one_is_accepted() {
    assert_eq!(read("1-none"), Ok(KernelSpec { size: 1, kind: Kind::Fixed(Aggregation::Identity) }));
}

#[test]
fn too_few_parts_are_rejected() {
    assert_eq!(read(""), Err(ParseError::TooFewParts));
    assert_eq!(read("3"), Err(ParseError::TooFewParts));
    assert_eq!(read("blur"), Err(ParseError::TooFewParts));
}

#[test]
fn size_must_be_a_number() {
    assert_eq!(read("x-blur"), Err(ParseError::InvalidSize));
    assert_eq!(read("-blur"), Err(ParseError::InvalidSize));
    assert_eq!(read("3.0-blur"), Err(ParseError::InvalidSize));
    assert_eq!(read("+3-blur"), Err(ParseError::InvalidSize));
    assert_eq!(read("3 3-blur"), Err(ParseError::InvalidSize));
}

#[test]
fn even_size_is_rejected() {
    assert_eq!(read("4-blur"), Err(ParseError::EvenSize));
    assert_eq!(read("0-blur"), Err(ParseError::EvenSize));
    assert_eq!(read("2-blur"), Err(ParseError::EvenSize));
    assert_eq!(read("65534-blur"), Err(ParseError::EvenSize));
}

#[test]
fn size_limit_is_kept() {
    assert_eq!(
        read("65535-none"),
        Ok(KernelSpec { size: 65535, kind: Kind::Fixed(Aggregation::Identity) })
    );
    assert_eq!(read("65536-none"), Err(ParseError::SizeTooLarge));
    assert_eq!(read("65537-none"), Err(ParseError::SizeTooLarge));
    assert_eq!(read("99999999999999999999999999-none"), Err(ParseError::SizeTooLarge));
    assert_eq!(
        read("0000000000000000000000003-none"),
        Ok(KernelSpec { size: 3, kind: Kind::Fixed(Aggregation::Identity) })
    );
}

#[test]
fn zero_sigma_is_rejected() {
    assert_eq!(read("3-gauss-blur-0"), Err(ParseError::NonPositiveSigma));
    assert_eq!(read("3-gauss-sharpen-0.00"), Err(ParseError::NonPositiveSigma));
    assert_eq!(read("3-dog-0-1"), Err(ParseError::NonPositiveSigma));
    assert_eq!(read("3-dog-1-0"), Err(ParseError::NonPositiveSigma));
}

#[test]
fn unknown_name_is_rejected() {
    assert_eq!(read("3-unknownname"), Err(ParseError::UnknownKernel));
    assert_eq!(read("3-Sobel_h"), Err(ParseError::UnknownKernel));
    assert_eq!(read("3-"), Err(ParseError::UnknownKernel));
}

#[test]
fn library_entry_of_wrong_length_is_rejected() {
    let mut lib = KernelLibrary::standard();
    lib.insert("sobel_h", Weights { num: vec![-1, 0, 1, -2], den: 1 });
    assert_eq!(KernelSpec::from_str("3-sobel_h", &lib), Err(ParseError::SizeMismatch));
    assert_eq!(read("5-sobel_h"), Err(ParseError::SizeMismatch));
    assert_eq!(read("3-laplacian_og"), Err(ParseError::SizeMismatch));
}

#[test]
fn library_names_are_found() {
    assert_eq!(read("3-sobel_h"), Ok(KernelSpec { size: 3, kind: Kind::Named(26) }));
    assert_eq!(read("3-kirsch_e"), Ok(KernelSpec { size: 3, kind: Kind::Named(1) }));
    assert_eq!(read("3-sharpen+"), Ok(KernelSpec { size: 3, kind: Kind::Named(25) }));
    assert_eq!(read("5-laplacian_og"), Ok(KernelSpec { size: 5, kind: Kind::Named(29) }));
}

#[test]
fn first_entry_of_a_name_counts() {
    let mut lib = KernelLibrary::new();
    lib.insert("mine", Weights { num: vec![1], den: 1 });
    lib.insert("other", Weights { num: vec![1; 9], den: 9 });
    lib.insert("mine", Weights { num: vec![2; 9], den: 18 });
    assert_eq!(lib.entries.len(), 2);
    assert_eq!(lib.entries[0].weights.num, vec![2; 9]);
    assert_eq!(KernelSpec::from_str("3-mine", &lib), Ok(KernelSpec { size: 3, kind: Kind::Named(0) }));
    assert_eq!(KernelSpec::from_str("3-other", &lib), Ok(KernelSpec { size: 3, kind: Kind::Named(1) }));
    assert_eq!(KernelSpec::from_str("3-sobel_h", &lib), Err(ParseError::UnknownKernel));
}

#[test]
fn numbers_are_read_exactly() {
    assert_eq!(
        read("5-gauss-blur-1.5"),
        Ok(KernelSpec { size: 5, kind: Kind::GaussBlur(Decimal { mantissa: 15, scale: 1 }) })
    );
    assert_eq!(
        read("5-gauss-sharpen-.25"),
        Ok(KernelSpec { size: 5, kind: Kind::GaussSharpen(Decimal { mantissa: 25, scale: 2 }) })
    );
    assert_eq!(
        read("5-gauss-blur-2."),
        Ok(KernelSpec { size: 5, kind: Kind::GaussBlur(Decimal { mantissa: 2, scale: 0 }) })
    );
    assert_eq!(
        read("5-gauss-blur-001.50"),
        Ok(KernelSpec { size: 5, kind: Kind::GaussBlur(Decimal { mantissa: 150, scale: 2 }) })
    );
}

#[test]
fn malformed_numbers_are_rejected() {
    assert_eq!(read("5-gauss-blur-abc"), Err(ParseError::InvalidNumber));
    assert_eq!(read("5-gauss-blur-"), Err(ParseError::InvalidNumber));
    assert_eq!(read("5-gauss-blur-."), Err(ParseError::InvalidNumber));
    assert_eq!(read("5-gauss-blur-1.2.3"), Err(ParseError::InvalidNumber));
    assert_eq!(read("5-gauss-blur-1e3"), Err(ParseError::InvalidNumber));
    assert_eq!(read("5-gauss-blur-+1"), Err(ParseError::InvalidNumber));
    assert_eq!(read("5-gauss-blur-1234567890123456789"), Err(ParseError::InvalidNumber));
    assert_eq!(
        read("5-gauss-blur-123456789012345678"),
        Ok(KernelSpec {
            size: 5,
            kind: Kind::GaussBlur(Decimal { mantissa: 123456789012345678, scale: 0 })
        })
    );
    assert_eq!(read("5-motion-x-0"), Err(ParseError::InvalidNumber));
    assert_eq!(read("5-motion-3-x"), Err(ParseError::InvalidNumber));
    assert_eq!(read("5-dog-1-2-x"), Err(ParseError::InvalidNumber));
}

#[test]
fn missing_arguments_are_rejected() {
    assert_eq!(read("5-motion"), Err(ParseError::MissingArgument));
    assert_eq!(read("5-motion-3"), Err(ParseError::MissingArgument));
    assert_eq!(read("5-gauss"), Err(ParseError::MissingArgument));
    assert_eq!(read("5-gauss-blur"), Err(ParseError::MissingArgument));
    assert_eq!(read("5-dog"), Err(ParseError::MissingArgument));
    assert_eq!(read("5-dog-1"), Err(ParseError::MissingArgument));
    assert_eq!(read("5-emboss"), Err(ParseError::MissingArgument));
}

#[test]
fn motion_is_read() {
    assert_eq!(
        read("5-motion-5-0"),
        Ok(KernelSpec {
            size: 5,
            kind: Kind::Motion(Decimal { mantissa: 5, scale: 0 }, Decimal { mantissa: 0, scale: 0 })
        })
    );
    assert_eq!(
        read("5-motion-5.9-22.5"),
        Ok(KernelSpec {
            size: 5,
            kind: Kind::Motion(
                Decimal { mantissa: 59, scale: 1 },
                Decimal { mantissa: 225, scale: 1 }
            )
        })
    );
}

#[test]
fn motion_length_is_checked() {
    assert_eq!(read("5-motion-0-0"), Err(ParseError::BadLength));
    assert_eq!(read("5-motion-0.0-45"), Err(ParseError::BadLength));
    assert_eq!(read("5-motion-6-0"), Err(ParseError::BadLength));
    assert_eq!(read("5-motion-6.5-0"), Err(ParseError::BadLength));
    assert!(read("5-motion-0.5-0").is_ok());
}

#[test]
fn gauss_kind_is_checked() {
    assert_eq!(read("5-gauss-smooth-1"), Err(ParseError::UnknownGaussKind));
    assert_eq!(read("5-gauss-Blur-1"), Err(ParseError::UnknownGaussKind));
}

#[test]
fn dog_is_read_with_and_without_scale() {
    let one = Decimal { mantissa: 1, scale: 0 };
    let two = Decimal { mantissa: 2, scale: 0 };
    assert_eq!(read("5-dog-1-2"), Ok(KernelSpec { size: 5, kind: Kind::Dog(one, two, None) }));
    assert_eq!(
        read("5-dog-1-2-0"),
        Ok(KernelSpec { size: 5, kind: Kind::Dog(one, two, Some(Decimal { mantissa: 0, scale: 0 })) })
    );
    assert_eq!(
        read("5-dog-1-2-4.5"),
        Ok(KernelSpec {
            size: 5,
            kind: Kind::Dog(one, two, Some(Decimal { mantissa: 45, scale: 1 }))
        })
    );
}

#[test]
fn directions_are_read_in_either_case() {
    let cases = [
        ("n", Direction::N),
        ("s", Direction::S),
        ("e", Direction::E),
        ("w", Direction::W),
        ("nw", Direction::NW),
        ("ne", Direction::NE),
        ("sw", Direction::SW),
        ("se", Direction::SE),
        ("N", Direction::N),
        ("Sw", Direction::SW),
        ("nE", Direction::NE),
        ("SE", Direction::SE),
    ];
    for (token, direction) in cases {
        assert_eq!(
            read(&format!("7-emboss-{}", token)),
            Ok(KernelSpec { size: 7, kind: Kind::Emboss(direction) })
        );
    }
}

#[test]
fn unknown_direction_is_rejected() {
    assert_eq!(read("7-emboss-up"), Err(ParseError::UnknownDirection));
    assert_eq!(read("7-emboss-"), Err(ParseError::UnknownDirection));
    assert_eq!(read("7-emboss-en"), Err(ParseError::UnknownDirection));
    assert_eq!(read("7-emboss-nww"), Err(ParseError::UnknownDirection));
}

#[test]
fn decimal_parse_and_whole_part() {
    let chars: Vec<char> = "12.75".chars().collect();
    let d = Decimal::parse(&chars).unwrap();
    assert_eq!(d, Decimal { mantissa: 1275, scale: 2 });
    assert_eq!(d.whole(), 12);
    assert!(d.is_valid());
    assert!(!Decimal { mantissa: 1, scale: 19 }.is_valid());
    assert!(!Decimal { mantissa: 1_000_000_000_000_000_000, scale: 0 }.is_valid());
    let empty: Vec<char> = Vec::new();
    assert_eq!(Decimal::parse(&empty), None);
}

#[test]
fn failures_are_worded() {
    assert_eq!(ParseError::EvenSize.message(), "the kernel size must be an odd number");
    assert_eq!(ParseError::NonPositiveSigma.message(), "sigma must be a positive value");
    assert_eq!(ParseError::UnknownKernel.message(), "no kernel of that name is known");
    assert_eq!(
        read("4-blur").unwrap_err().message(),
        "the kernel size must be an odd number"
    );
    let all = [
        ParseError::TooFewParts,
        ParseError::InvalidSize,
        ParseError::SizeTooLarge,
        ParseError::EvenSize,
        ParseError::MissingArgument,
        ParseError::InvalidNumber,
        ParseError::NonPositiveSigma,
        ParseError::BadLength,
        ParseError::UnknownGaussKind,
        ParseError::UnknownDirection,
        ParseError::UnknownKernel,
        ParseError::SizeMismatch,
    ];
    for (i, a) in all.iter().enumerate() {
        assert!(!a.message().is_empty());
        for b in all.iter().skip(i + 1) {
            assert_ne!(a.message(), b.message());
        }
    }
}
