use togglite::i18n::{all_langs, lang_at, lang_index, current, date_label, date_label_in, init, preference, set_preference, system_lang, t, Lang, LangState};

#[test]
fn tags_parse_leniently() {
    assert_eq!(Lang::from_tag("ja"), Some(Lang::Ja));
    assert_eq!(Lang::from_tag("ja-JP"), Some(Lang::Ja));
    assert_eq!(Lang::from_tag("JA_jp"), Some(Lang::Ja));
    assert_eq!(Lang::from_tag(" en-US "), Some(Lang::En));
    assert_eq!(Lang::from_tag("fr"), None);
    assert_eq!(Lang::from_tag(""), None);
    for l in all_langs() {
        assert_eq!(Lang::from_tag(l.tag()), Some(l));
    }
}

#[test]
fn preference_drives_current_language() {
    let mut st = LangState::new();
    let system = Lang::En;
    // Explicit choice wins regardless of the system language.
    set_preference(&mut st, Some(Lang::Ja), system);
    assert_eq!(preference(&st), Some(Lang::Ja));
    assert_eq!(current(&st), Lang::Ja);
    assert_eq!(t(&st).save, "保存");
    set_preference(&mut st, Some(Lang::En), system);
    assert_eq!(current(&st), Lang::En);
    assert_eq!(t(&st).save, "Save");
    // Automatic falls back to the system language.
    set_preference(&mut st, None, system);
    assert_eq!(preference(&st), None);
    assert_eq!(current(&st), system);
    set_preference(&mut st, None, Lang::Ja);
    assert_eq!(current(&st), Lang::Ja);
}

#[test]
fn date_labels() {
    assert_eq!(date_label_in(Lang::En, 9, 17, 3), "Wed, Sep 17");
    assert_eq!(date_label_in(Lang::Ja, 9, 17, 3), "9月17日 (水)");
    assert_eq!(date_label_in(Lang::En, 1, 1, 0), "Sun, Jan 1");
}

#[test]
fn date_labels_clamp_month_and_wrap_weekday() {
    assert_eq!(date_label_in(Lang::En, 0, 5, 7), "Sun, Jan 5");
    assert_eq!(date_label_in(Lang::En, 13, 31, 13), "Sat, Dec 31");
    let mut st = LangState::new();
    set_preference(&mut st, Some(Lang::Ja), Lang::En);
    assert_eq!(date_label(&st, 12, 1, 1), "12月1日 (月)");
}

#[test]
fn init_reads_the_saved_tag() {
    let mut st = LangState::new();
    init(&mut st, Some("ja-JP"), Lang::En);
    assert_eq!(preference(&st), Some(Lang::Ja));
    init(&mut st, Some("xx"), Lang::En);
    assert_eq!(preference(&st), None);
    assert_eq!(current(&st), Lang::En);
    init(&mut st, None, Lang::Ja);
    assert_eq!(current(&st), Lang::Ja);
}

#[test]
fn system_language_from_override_or_langid() {
    assert_eq!(system_lang(Some("ja"), 0x0409), Lang::Ja);
    assert_eq!(system_lang(Some("fr"), 0x0411), Lang::Ja);
    assert_eq!(system_lang(None, 0x0411), Lang::Ja);
    assert_eq!(system_lang(None, 0x0409), Lang::En);
}

#[test]
fn codes_round_trip() {
    for l in all_langs() {
        assert_eq!(Lang::from_u8(l.code()), Some(l));
    }
    assert_eq!(Lang::from_u8(255), None);
    assert_eq!(Lang::En.native_name(), "English");
    assert_eq!(Lang::Ja.native_name(), "日本語");
    let st = LangState { preference: 200, current: 99 };
    assert_eq!(preference(&st), None);
    assert_eq!(current(&st), Lang::En);
}

#[test]
fn language_picker_positions() {
    assert_eq!(lang_at(Some(0)), Some(Lang::En));
    assert_eq!(lang_at(Some(1)), Some(Lang::Ja));
    assert_eq!(lang_at(Some(2)), None);
    assert_eq!(lang_at(None), None);
    for l in all_langs() {
        assert_eq!(lang_at(lang_index(Some(l))), Some(l));
    }
    assert_eq!(lang_index(None), None);
}
