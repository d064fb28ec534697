use npm_resolver::package::{is_name, PackageId, PackageReq};
use npm_resolver::version::Version;

#[test]
fn package_names() {
    for good in ["chalk", "cowsay", "@denotest/esm-basic", "@a/b", "mkdirp", "a"] {
        assert!(is_name(good), "{good:?}");
    }
    for bad in ["", "@", "@scope", "@scope/", "@/name", "a/b", "@a/b/c", "a@b", "@a@/b", "@a/b@"] {
        assert!(!is_name(bad), "{bad:?}");
    }
}

#[test]
fn package_id_text_round_trip() {
    let id = PackageId::new("@denotest/esm-basic", Version::new(1, 0, 0));
    assert_eq!(id.to_text(), "@denotest/esm-basic@1.0.0");
    let back = PackageId::parse("@denotest/esm-basic@1.0.0").unwrap();
    assert!(back.same(&id));
    assert_eq!(back.name, "@denotest/esm-basic");
    assert_eq!(back.version, Version::new(1, 0, 0));
    let plain = PackageId::parse("cowsay@1.5.0").unwrap();
    assert_eq!(plain.name, "cowsay");
    assert_eq!(plain.version, Version::new(1, 5, 0));
    assert!(!plain.same(&id));
    assert!(plain.same(&plain.clone()));
}

#[test]
fn package_id_parse_refuses_other_texts() {
    for bad in ["", "cowsay", "cowsay@", "cowsay@1", "cowsay@^1.5.0", "@1.0.0", "@denotest/esm-basic", "a/b@1.0.0", "a@b@1.0.0", "cowsay@1.5.0 "] {
        assert!(PackageId::parse(bad).is_none(), "{bad:?}");
    }
}

#[test]
fn package_req_text_round_trip() {
    let bare = PackageReq::parse("cowsay").unwrap();
    assert_eq!(bare.name, "cowsay");
    assert_eq!(bare.req.text(), "");
    assert_eq!(bare.to_text(), "cowsay");
    let ranged = PackageReq::parse("@denotest/esm-basic@^1.0").unwrap();
    assert_eq!(ranged.name, "@denotest/esm-basic");
    assert_eq!(ranged.req.text(), "^1.0");
    assert_eq!(ranged.to_text(), "@denotest/esm-basic@^1.0");
    let either = PackageReq::parse("chalk@^4 || ^5").unwrap();
    assert_eq!(either.to_text(), "chalk@^4 || ^5");
    let tagged = PackageReq::parse("chalk@latest").unwrap();
    assert!(tagged.req.is_tag());
    assert!(ranged.same(&ranged.clone()));
    assert!(!ranged.same(&bare));
}

#[test]
fn package_req_parse_refuses_other_texts() {
    for bad in ["", "cowsay@", "@", "@scope@1", "a/b", "chalk@1 | 2", "chalk@@1", "@a/b@1@2"] {
        assert!(PackageReq::parse(bad).is_none(), "{bad:?}");
    }
}
