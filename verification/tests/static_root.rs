use pandora_web::static_root::{StaticRootAppConf, StaticRootAppOpt};

#[test]
fn default_settings() {
    let conf = StaticRootAppConf::default();
    assert_eq!(conf.listen, vec!["127.0.0.1:8080", "[::1]:8080"]);
    assert_eq!(conf.compression_level, None);
}

#[test]
fn options_override_configuration() {
    let conf = StaticRootAppConf {
        listen: vec!["a".to_owned()],
        compression_level: Some(3),
    };
    let conf = conf.merge_with_opt(StaticRootAppOpt {
        listen: None,
        compression_level: Some(5),
    });
    assert_eq!(conf.listen, vec!["a"]);
    assert_eq!(conf.compression_level, Some(5));

    let conf = conf.merge_with_opt(StaticRootAppOpt {
        listen: Some(vec!["b".to_owned(), "c".to_owned()]),
        compression_level: None,
    });
    assert_eq!(conf.listen, vec!["b", "c"]);
    assert_eq!(conf.compression_level, Some(5));
}
