use irc_bot::framework::bot_cmd::BotCmdResult;
use irc_bot::framework::reaction::Reaction;
use irc_bot::modules::quote::{
    chat_lines_stripped, chat_text_piece_count, quotation_byte_len, reload_report, rendered_quotation_byte_len,
    get_quotation_by_user_specified_id, quote, render_quotation, show_qdb_info, strip_chat_metadata,
    AntiPingTactic, Quotation, QuotationDatabase, QuotationFileId, QuotationFileIR, QuotationFormat, QuotationIR,
    QuotationId, QuoteParams, checked_url, quotation_reply, QuotationChoice,
};

const CHAT_TEXT: &str = "2018-08-27 21:16 <c74d> Why do you find solid mechanics harder than fluid mechanics?\n\
2018-08-27 21:16 <c74d> Er, allow me to rephrase: Why do you find solid mechanics more difficult than fluid mechanics?\n";

const CHAT_SHOWN: &str = "<c74d> Why do you find solid mechanics harder than fluid mechanics? <c74d> Er, allow me to \
rephrase: Why do you find solid mechanics more difficult than fluid mechanics?";

const TWAIN: &str = "\u{201c}I recognize that I am only making an assertion and furnishing no proof; I am sorry, but \
this is a habit of mine; sorry also that I am not alone in it; everybody seems to have this disease.\u{201d} \u{2014} Mark Twain\n";

fn ir(text: &str, format: Option<QuotationFormat>) -> QuotationIR {
    QuotationIR { format, text: text.to_owned(), tags: Vec::new(), url: None, anti_ping_tactic: None }
}

fn db() -> QuotationDatabase {
    let mut qdb = QuotationDatabase::new();
    let file = QuotationFileIR {
        channels: "#quotes".to_owned(),
        format: QuotationFormat::Chat,
        anti_ping_tactic: AntiPingTactic::Nothing,
        quotations: vec![ir(CHAT_TEXT, None), ir(TWAIN, Some(QuotationFormat::Plain))],
    };
    qdb.load_file("physics.yaml".to_owned(), file).unwrap();
    qdb
}

#[test]
fn chat_metadata_is_left_out() {
    assert_eq!(strip_chat_metadata("2018-08-27 21:16 <c74d> Hi there").unwrap(), "<c74d> Hi there");
    assert_eq!(strip_chat_metadata("12:00 * c74d waves").unwrap(), "* c74d waves");
    assert_eq!(strip_chat_metadata("12:00 >> not metadata").unwrap(), " not metadata");
    assert_eq!(strip_chat_metadata("<a> b").unwrap(), "<a> b");
    assert_eq!(strip_chat_metadata("just words").unwrap(), "");
}

#[test]
fn rendering_chat_and_plain_quotations() {
    let qdb = db();
    assert_eq!(
        render_quotation(None, &qdb.quotations[0], &[]),
        format!("[0] {}", CHAT_SHOWN)
    );
    assert_eq!(
        render_quotation(None, &qdb.quotations[1], &[]),
        format!("[1] {}", TWAIN)
    );
}

#[test]
fn rendering_with_munging() {
    let qdb = db();
    let nicks = vec!["c74d".to_owned()];
    let shown = render_quotation(Some(AntiPingTactic::Munge), &qdb.quotations[0], &nicks);
    assert!(shown.starts_with("[0] <c\u{200B}74d> Why"));
    assert!(!shown.contains("c74d"));
    let plain = render_quotation(Some(AntiPingTactic::Nothing), &qdb.quotations[0], &nicks);
    assert!(plain.contains("<c74d>"));
}

#[test]
fn quoting_in_allowed_and_other_channels() {
    let qdb = db();
    let mut params = QuoteParams::empty();
    params.literals.push("Twain".to_owned());
    match quote(&params, &qdb, "#quotes", &[], 450) {
        Ok(Reaction::Msg(m)) => assert_eq!(m, format!("[1] {}", TWAIN)),
        other => panic!("unexpected {:?}", other),
    }
    match quote(&params, &qdb, "#elsewhere", &[], 450) {
        Err(BotCmdResult::Done(Reaction::Reply(m))) => assert_eq!(
            m,
            "I have found no quotation matching the given query parameters in the files I am allowed to quote in this channel."
        ),
        other => panic!("unexpected {:?}", other),
    }
    match quote(&params, &qdb, "#QUOTES", &[], 10) {
        Err(BotCmdResult::Done(Reaction::Reply(m))) => assert!(m.contains("too long")),
        other => panic!("unexpected {:?}", other),
    }
}

#[test]
fn quotation_ids() {
    let qdb = db();
    assert_eq!(get_quotation_by_user_specified_id(&qdb, "1").unwrap(), 1);
    match get_quotation_by_user_specified_id(&qdb, "7") {
        Err(BotCmdResult::UserErrMsg(m)) => assert_eq!(
            m,
            "The given value of the parameter `id`, \"7\", was not recognized as the identifier of a quotation in my quotation database."
        ),
        other => panic!("unexpected {:?}", other),
    }
    assert!(matches!(get_quotation_by_user_specified_id(&qdb, "xyz"), Err(BotCmdResult::UserErrMsg(_))));
    assert_eq!(QuotationId(255).to_string(), "FF");
    assert_eq!(QuotationId::parse_str("ff").unwrap(), QuotationId(255));
    assert_eq!(QuotationId::parse_str(&QuotationId(4660).to_string()).unwrap(), QuotationId(4660));
}

#[test]
fn database_info() {
    let qdb = db();
    match show_qdb_info(&qdb, "#quotes") {
        Reaction::Msgs(v) => assert_eq!(
            v,
            vec!["I have 2 total quotation(s) in 1 file(s). The files I may name in this channel, along with their quotation counts, are: physics.yaml (2).".to_owned()]
        ),
        other => panic!("unexpected {:?}", other),
    }
    match show_qdb_info(&qdb, "#other") {
        Reaction::Msgs(v) => assert!(v[0].ends_with("are: <none>.")),
        other => panic!("unexpected {:?}", other),
    }
}

#[test]
fn byte_lengths_match_rendering() {
    let qdb = db();
    for q in &qdb.quotations {
        let shown = render_quotation(Some(AntiPingTactic::Nothing), q, &[]);
        assert_eq!(rendered_quotation_byte_len(q), shown.len());
    }
    assert_eq!(quotation_byte_len(&qdb.quotations[0]), CHAT_SHOWN.len());
    assert_eq!(quotation_byte_len(&qdb.quotations[1]), TWAIN.len());
}

#[test]
fn chat_lines_keep_left_angle_brackets() {
    let text = "12:00 <a> x < y\n\n  <b> <<z>>\njust metadata\n";
    let lines = chat_lines_stripped(text);
    let kept: usize = lines.iter().map(|l| l.matches('<').count()).sum();
    assert_eq!(kept, text.matches('<').count());
    assert_eq!(lines, vec!["<a> x < y".to_owned(), "<b> <<z>>".to_owned()]);
}

#[test]
fn reload_reports() {
    assert_eq!(chat_text_piece_count(CHAT_TEXT), 3);
    assert_eq!(chat_text_piece_count(""), 0);
    match reload_report(&[0, 1, 3, 3, 5]) {
        Reaction::Msg(m) => assert_eq!(
            m,
            "I have reloaded my quotation database. The five-number summary of the numbers of pieces into which \
             chat-format quotations' texts get broken, assuming no anti-ping munging, is [0, 1, 3, 3, 5]."
        ),
        other => panic!("unexpected {:?}", other),
    }
}

fn quotation(id: usize, format: QuotationFormat, text: &str, tactic: AntiPingTactic) -> Quotation {
    Quotation {
        id: QuotationId(id),
        file_id: QuotationFileId(0),
        format,
        text: text.to_owned(),
        tags: vec!["t".to_owned()],
        url: None,
        anti_ping_tactic: tactic,
    }
}

const TACTICS: [AntiPingTactic; 3] = [AntiPingTactic::Munge, AntiPingTactic::Eschew, AntiPingTactic::Nothing];

#[test]
fn rendering_example_chat_1() {
    let text = "2018-03-24 09:31 <c74d> I do have a sense of humor. It just might not like yours.\n\
                2018-03-24 09:31 <c74d> And yours might not like mine, and I don't think either of us should feel obliged to apologize for not liking the other's.\n\
                2018-03-24 09:31 <c74d> However, I'm open to the idea that either or both of us should apologize for our own sense of humor.\n";
    assert_eq!(
        chat_lines_stripped(text),
        vec![
            "<c74d> I do have a sense of humor. It just might not like yours.".to_owned(),
            "<c74d> And yours might not like mine, and I don't think either of us should feel obliged to apologize for not liking the other's.".to_owned(),
            "<c74d> However, I'm open to the idea that either or both of us should apologize for our own sense of humor.".to_owned(),
        ]
    );
    for (id, tactic) in [0usize, 0x2a, 12345].iter().zip(TACTICS.iter()) {
        let q = quotation(*id, QuotationFormat::Chat, text, *tactic);
        assert_eq!(
            render_quotation(None, &q, &[]),
            format!(
                "[{:X}] <c74d> I do have a sense of humor. It just might not like yours. <c74d> And yours might not like mine, and I don't think either of us should feel obliged to apologize for not liking the other's. <c74d> However, I'm open to the idea that either or both of us should apologize for our own sense of humor.",
                id
            )
        );
    }
}

#[test]
fn rendering_example_chat_2() {
    let text = "2018-08-28 00:48 <foo> bar xyz\n\
                2018-08-28 00:48  * foo summons quux\n\
                2018-08-28 00:48 -!- quux has joined\n\
                2018-08-28 00:48 -*- quux frobs foo\n\
                2018-08-28 00:48 <foo> abc baz\n\
                2018-08-28 00:48 <-- foo has left";
    assert_eq!(
        chat_lines_stripped(text),
        vec![
            "<foo> bar xyz".to_owned(),
            "* foo summons quux".to_owned(),
            "-*- quux frobs foo".to_owned(),
            "<foo> abc baz".to_owned(),
            "<-- foo has left".to_owned(),
        ]
    );
    for (id, tactic) in [0usize, 0x2a, 12345].iter().zip(TACTICS.iter()) {
        let q = quotation(*id, QuotationFormat::Chat, text, *tactic);
        assert_eq!(
            render_quotation(None, &q, &[]),
            format!("{{{:X}}} <foo> bar xyz * foo summons quux -*- quux frobs foo <foo> abc baz <-- foo has left", id)
        );
    }
}

#[test]
fn rendering_example_plain_1() {
    let text = "\u{201c}I recognize that I am only making an assertion and furnishing no proof; I am sorry, but this is a habit of mine; sorry also that I am not alone in it; everybody seems to have this disease.\u{201d} \u{2014} Mark Twain";
    for (id, tactic) in [0usize, 0x2a, 12345].iter().zip(TACTICS.iter()) {
        let q = quotation(*id, QuotationFormat::Plain, text, *tactic);
        assert_eq!(render_quotation(None, &q, &[]), format!("[{:X}] {}", id, text));
    }
}

#[test]
fn a_requested_id_is_the_quotation_posted() {
    let qdb = db();
    for (id, expected) in [("0", format!("[0] {}", CHAT_SHOWN)), ("1", format!("[1] {}", TWAIN))] {
        let mut params = QuoteParams::empty();
        params.id = Some(id.to_owned());
        for _ in 0..10 {
            match quote(&params, &qdb, "#quotes", &[], 450) {
                Ok(Reaction::Msg(m)) => assert_eq!(m, expected),
                other => panic!("unexpected {:?}", other),
            }
        }
    }
}

#[test]
fn replies_for_chosen_quotations() {
    let mut qdb = QuotationDatabase::new();
    let mut with_url = ir(TWAIN, Some(QuotationFormat::Plain));
    with_url.url = Some("https://example.net/twain".to_owned());
    let file = QuotationFileIR {
        channels: "#quotes".to_owned(),
        format: QuotationFormat::Chat,
        anti_ping_tactic: AntiPingTactic::Nothing,
        quotations: vec![ir(CHAT_TEXT, None), with_url],
    };
    qdb.load_file("physics.yaml".to_owned(), file).unwrap();
    assert_eq!(quotation_reply(&QuoteParams::empty(), &qdb, &[], QuotationChoice::Text(0)), format!("[0] {}", CHAT_SHOWN));
    assert_eq!(
        quotation_reply(&QuoteParams::empty(), &qdb, &[], QuotationChoice::Url(1)),
        "[1] <https://example.net/twain>"
    );
    let mut params = QuoteParams::empty();
    params.id = Some("1".to_owned());
    match quote(&params, &qdb, "#quotes", &[], 40) {
        Ok(Reaction::Msg(m)) => assert_eq!(m, "[1] <https://example.net/twain>"),
        other => panic!("unexpected {:?}", other),
    }
}

#[test]
fn quotation_urls_are_checked() {
    assert_eq!(checked_url(None).unwrap(), None);
    assert_eq!(checked_url(Some("https://example.net".to_owned())).unwrap(), Some("https://example.net/".to_owned()));
    assert_eq!(
        checked_url(Some("HTTPS://Example.NET/a b".to_owned())).unwrap(),
        Some("https://example.net/a%20b".to_owned())
    );
    assert!(checked_url(Some("not a url".to_owned())).is_err());
    assert!(checked_url(Some("".to_owned())).is_err());
}

#[test]
fn reloading_the_database() {
    let (q, failure) = db().reloaded::<String>(Ok(None));
    assert_eq!(q.quotations.len(), 2);
    assert!(failure.is_none());
    let (q, failure) = db().reloaded::<String>(Ok(Some(QuotationDatabase::new())));
    assert_eq!(q.quotations.len(), 0);
    assert!(failure.is_none());
    let (q, failure) = db().reloaded(Err("unreadable".to_owned()));
    assert_eq!(q.quotations.len(), 0);
    assert_eq!(q.files.len(), 0);
    assert_eq!(failure, Some("unreadable".to_owned()));
}

#[test]
fn no_length_limit_is_out_of_range() {
    let qdb = db();
    let mut params = QuoteParams::empty();
    params.id = Some("1".to_owned());
    match quote(&params, &qdb, "#quotes", &[], usize::MAX) {
        Ok(Reaction::Msg(m)) => assert_eq!(m, format!("[1] {}", TWAIN)),
        other => panic!("unexpected {:?}", other),
    }
}
