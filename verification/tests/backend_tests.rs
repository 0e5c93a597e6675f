use anki_backend::avtags::{extract_av_tags, extract_latex, strip_av_tags};
use anki_backend::backend::{Backend, NoProgress, ProgressHandler};
use anki_backend::proto::{encode_init, BackendInit, RenderCardOut, RenderedNode,
    RenderedTemplateReplacement};
use anki_backend::err::{anki_error_to_proto_error, AnkiError};
use anki_backend::i18n::I18n;
use anki_backend::proto::{
    decode_input, encode_input, encode_output, AddMediaFileIn, BackendError, BackendInput,
    BackendOutput, BuiltinSortOrder, FieldOrdinal, FieldValue, FormatTimeSpanIn, GetCardOut,
    OpenCollectionIn, RenderCardIn, SchedTimingTodayIn, SchedTimingTodayOut, SearchCardsIn,
    SearchCardsOut, SearchNotesIn, SortOrder, StudiedTodayIn, SyncMediaIn, TemplateRequirement,
    TemplateRequirementsIn, TranslateArg, TranslateArgValue, TranslateStringIn, TrashMediaFilesIn,
    WireCard,
};

fn new_backend() -> Backend<NoProgress> {
    let i18n = I18n::new(Vec::new(), Vec::new());
    Backend::new(i18n, false)
}

fn open_input(path: &str) -> BackendInput {
    BackendInput::OpenCollection(OpenCollectionIn {
        collection_path: path.as_bytes().to_vec(),
        media_folder_path: b"media".to_vec(),
        media_db_path: b"media.db".to_vec(),
        log_path: Vec::new(),
    })
}

fn run(b: &mut Backend<NoProgress>, input: BackendInput) -> Vec<u8> {
    let bytes = encode_input(&input);
    b.run_command_bytes(&bytes)
}

fn expect(out: BackendOutput) -> Vec<u8> {
    encode_output(&out)
}

fn error_reply(b: &Backend<NoProgress>, e: AnkiError) -> Vec<u8> {
    expect(BackendOutput::Error(anki_error_to_proto_error(&e, b.i18n())))
}

fn plain_card() -> WireCard {
    WireCard {
        id: 0,
        nid: 7,
        did: 1,
        ord: 0,
        mtime: 1000,
        usn: 0,
        ctype: 0,
        queue: 0,
        due: 5,
        ivl: 3,
        factor: 2500,
        reps: 2,
        lapses: 1,
        left: 0,
        odue: 0,
        odid: 0,
        flags: 0,
        data: b"payload".to_vec(),
    }
}

#[test]
fn open_twice_then_close_twice() {
    let mut b = new_backend();
    assert_eq!(run(&mut b, open_input("col.anki2")), expect(BackendOutput::OpenCollection));
    // a second open without an intervening close is refused
    assert_eq!(
        run(&mut b, open_input("col.anki2")),
        error_reply(&b, AnkiError::CollectionAlreadyOpen)
    );
    assert_eq!(run(&mut b, BackendInput::CloseCollection), expect(BackendOutput::CloseCollection));
    // close before any open is refused
    assert_eq!(
        run(&mut b, BackendInput::CloseCollection),
        error_reply(&b, AnkiError::CollectionNotOpen)
    );
}

#[test]
fn requests_while_closed_return_not_open() {
    let mut b = new_backend();
    let not_open = error_reply(&b, AnkiError::CollectionNotOpen);
    assert_eq!(run(&mut b, BackendInput::GetCard(5)), not_open);
    assert_eq!(run(&mut b, BackendInput::CheckMedia), not_open);
    assert_eq!(run(&mut b, BackendInput::StripAvTags(b"x".to_vec())), not_open);
    assert_eq!(
        run(&mut b, BackendInput::SyncMedia(SyncMediaIn { hkey: Vec::new(), endpoint: Vec::new() })),
        not_open
    );
}

#[test]
fn open_with_empty_path_fails_and_stays_closed() {
    let mut b = new_backend();
    assert_eq!(
        run(&mut b, open_input("")),
        error_reply(&b, AnkiError::IOError { info: b"missing collection path".to_vec() })
    );
    // still closed afterwards
    assert_eq!(
        run(&mut b, BackendInput::GetCard(1)),
        error_reply(&b, AnkiError::CollectionNotOpen)
    );
}

#[test]
fn card_lifecycle_scenario() {
    let mut b = new_backend();
    assert_eq!(run(&mut b, open_input("a")), expect(BackendOutput::OpenCollection));
    // a fresh collection assigns the first positive id
    assert_eq!(
        run(&mut b, BackendInput::AddCard(plain_card())),
        expect(BackendOutput::AddCard(1))
    );
    // the stored card comes back with matching fields and the new id
    let mut stored = plain_card();
    stored.id = 1;
    assert_eq!(
        run(&mut b, BackendInput::GetCard(1)),
        expect(BackendOutput::GetCard(GetCardOut { card: Some(stored) }))
    );
    assert_eq!(run(&mut b, BackendInput::CloseCollection), expect(BackendOutput::CloseCollection));
    // after the close, the card is gone with the collection
    assert_eq!(
        run(&mut b, BackendInput::GetCard(1)),
        error_reply(&b, AnkiError::CollectionNotOpen)
    );
}

#[test]
fn failed_update_changes_nothing() {
    let mut b = new_backend();
    run(&mut b, open_input("a"));
    assert_eq!(run(&mut b, BackendInput::AddCard(plain_card())), expect(BackendOutput::AddCard(1)));
    // updating a card that does not exist is a storage error
    let mut missing = plain_card();
    missing.id = 99;
    missing.data = b"changed".to_vec();
    assert_eq!(
        run(&mut b, BackendInput::UpdateCard(missing)),
        error_reply(&b, AnkiError::DBError { info: b"card not found".to_vec() })
    );
    // persisted state is unchanged: the stored card still reads back as
    // before, and the next id is still 2
    let mut stored = plain_card();
    stored.id = 1;
    assert_eq!(
        run(&mut b, BackendInput::GetCard(1)),
        expect(BackendOutput::GetCard(GetCardOut { card: Some(stored) }))
    );
    assert_eq!(run(&mut b, BackendInput::AddCard(plain_card())), expect(BackendOutput::AddCard(2)));
}

fn updated_card() -> WireCard {
    let mut upd = plain_card();
    upd.id = 1;
    upd.data = b"new".to_vec();
    upd.reps = 9;
    upd
}

#[test]
fn update_card_applies() {
    let mut b = new_backend();
    run(&mut b, open_input("a"));
    run(&mut b, BackendInput::AddCard(plain_card()));
    assert_eq!(run(&mut b, BackendInput::UpdateCard(updated_card())), expect(BackendOutput::UpdateCard));
    assert_eq!(
        run(&mut b, BackendInput::GetCard(1)),
        expect(BackendOutput::GetCard(GetCardOut { card: Some(updated_card()) }))
    );
}

#[test]
fn invalid_card_numbers_are_invalid_input() {
    let mut b = new_backend();
    run(&mut b, open_input("a"));
    let mut bad = plain_card();
    bad.ctype = 99;
    assert_eq!(
        run(&mut b, BackendInput::AddCard(bad)),
        error_reply(&b, AnkiError::InvalidInput { info: b"invalid card type".to_vec() })
    );
    let mut bad_q = plain_card();
    bad_q.queue = -9;
    assert_eq!(
        run(&mut b, BackendInput::AddCard(bad_q)),
        error_reply(&b, AnkiError::InvalidInput { info: b"invalid card queue".to_vec() })
    );
}

#[test]
fn garbage_bytes_yield_invalid_input_reply() {
    let mut b = new_backend();
    let reply = b.run_command_bytes(&[0xff, 0x07, 0x33, 0x99]);
    let expected = expect(BackendOutput::Error(BackendError {
        code: 1,
        subtype: 0,
        localized: b"invalid input: couldn't decode backend request".to_vec(),
    }));
    assert_eq!(reply, expected);
    // an empty request is garbage too
    assert_eq!(b.run_command_bytes(&[]), expected);
}

#[test]
fn request_envelope_round_trip() {
    let req = BackendInput::SearchCards(SearchCardsIn {
        search: b"42".to_vec(),
        order: SortOrder::Builtin(BuiltinSortOrder { kind: 7, reverse: true }),
    });
    let bytes = encode_input(&req);
    let decoded = decode_input(&bytes).expect("round trip decode");
    // decoding then re-encoding reproduces the bytes exactly
    assert_eq!(encode_input(&decoded), bytes);

    let req2 = BackendInput::AddCard(plain_card());
    let bytes2 = encode_input(&req2);
    let decoded2 = decode_input(&bytes2).expect("card round trip");
    assert_eq!(encode_input(&decoded2), bytes2);

    // encoding is deterministic
    assert_eq!(encode_input(&req), bytes);
}

#[test]
fn sched_timing_with_explicit_offsets() {
    let mut b = new_backend();
    run(&mut b, open_input("a"));
    let input = BackendInput::SchedTimingToday(SchedTimingTodayIn {
        created_secs: 0,
        now_secs: 864000,
        created_mins_west: Some(0),
        now_mins_west: Some(0),
        rollover_hour: Some(0),
    });
    assert_eq!(
        run(&mut b, input),
        expect(BackendOutput::SchedTimingToday(SchedTimingTodayOut {
            days_elapsed: 10,
            next_day_at: 950400,
        }))
    );
    // a rollover hour shifts the boundary: 4am rollover, now just after
    // midnight on day 10, still day 9
    let input2 = BackendInput::SchedTimingToday(SchedTimingTodayIn {
        created_secs: 0,
        now_secs: 864000 + 3600,
        created_mins_west: Some(0),
        now_mins_west: Some(0),
        rollover_hour: Some(4),
    });
    assert_eq!(
        run(&mut b, input2),
        expect(BackendOutput::SchedTimingToday(SchedTimingTodayOut {
            days_elapsed: 10,
            next_day_at: 878400,
        }))
    );
}

#[test]
fn local_minutes_west_is_bounded() {
    let mut b = new_backend();
    run(&mut b, open_input("a"));
    let reply = run(&mut b, BackendInput::LocalMinutesWest(0));
    // the offset depends on the machine; any reply must be within a day
    let mut found = false;
    for m in -1440i32..=1440i32 {
        if reply == expect(BackendOutput::LocalMinutesWest(m)) {
            found = true;
            break;
        }
    }
    assert!(found);
}

#[test]
fn format_time_span_contexts() {
    let mut b = new_backend();
    run(&mut b, open_input("a"));
    let f = |ctx: u32, secs: u32| {
        BackendInput::FormatTimeSpan(FormatTimeSpanIn { seconds: secs, context: ctx })
    };
    assert_eq!(
        run(&mut b, f(0, 125)),
        expect(BackendOutput::FormatTimeSpan(b"125 seconds".to_vec()))
    );
    assert_eq!(
        run(&mut b, f(2, 120)),
        expect(BackendOutput::FormatTimeSpan(b"2 minutes".to_vec()))
    );
    assert_eq!(run(&mut b, f(1, 7200)), expect(BackendOutput::FormatTimeSpan(b"2h".to_vec())));
    assert_eq!(run(&mut b, f(9, 120)), expect(BackendOutput::FormatTimeSpan(Vec::new())));
}

#[test]
fn studied_today_line() {
    let mut b = new_backend();
    run(&mut b, open_input("a"));
    assert_eq!(
        run(&mut b, BackendInput::StudiedToday(StudiedTodayIn { cards: 3, seconds: 17 })),
        expect(BackendOutput::StudiedToday(b"studied 3 cards in 17 seconds today".to_vec()))
    );
}

#[test]
fn translate_string_keys() {
    let mut b = new_backend();
    run(&mut b, open_input("a"));
    let req = BackendInput::TranslateString(TranslateStringIn {
        key: 0,
        args: vec![TranslateArg {
            name: b"count".to_vec(),
            value: TranslateArgValue::Int(5),
        }],
    });
    assert_eq!(run(&mut b, req), expect(BackendOutput::TranslateString(b"checked 5".to_vec())));
    let unknown = BackendInput::TranslateString(TranslateStringIn { key: 99, args: Vec::new() });
    assert_eq!(
        run(&mut b, unknown),
        expect(BackendOutput::TranslateString(b"invalid key".to_vec()))
    );
}

#[test]
fn av_tags_and_latex() {
    let text = b"hear [clip.mp3] now".to_vec();
    assert_eq!(strip_av_tags(&text), b"hear  now".to_vec());
    let (stripped, tags) = extract_av_tags(&text);
    assert_eq!(stripped, b"hear  now".to_vec());
    assert_eq!(tags, vec![b"clip.mp3".to_vec()]);
    // an unclosed bracket extracts nothing and keeps the text
    let odd = b"oops [broken".to_vec();
    assert_eq!(strip_av_tags(&odd), odd);

    let (tex_text, formulas) = extract_latex(&b"a$x+y$b".to_vec(), false);
    assert_eq!(tex_text, b"alatex-0.pngb".to_vec());
    assert_eq!(formulas.len(), 1);
    assert_eq!(formulas[0].filename, b"latex-0.png".to_vec());
    assert_eq!(formulas[0].latex_body, b"x+y".to_vec());
    let (svg_text, _) = extract_latex(&b"$z$".to_vec(), true);
    assert_eq!(svg_text, b"latex-0.svg".to_vec());
}

#[test]
fn template_requirements_cases() {
    let mut b = new_backend();
    run(&mut b, open_input("a"));
    let map = vec![
        FieldOrdinal { name: b"Front".to_vec(), ord: 0 },
        FieldOrdinal { name: b"Back".to_vec(), ord: 1 },
    ];
    let req = BackendInput::TemplateRequirements(TemplateRequirementsIn {
        template_front: vec![
            b"{Front}".to_vec(),              // all fields known
            b"{Front} {Missing}".to_vec(),    // some known
            b"{Nope}".to_vec(),               // none known
            b"plain text".to_vec(),           // no references
            b"{broken".to_vec(),              // parse failure
        ],
        field_names_to_ordinals: map,
    });
    let reply = run(&mut b, req);
    let expected = expect(BackendOutput::TemplateRequirements(
        anki_backend::proto::TemplateRequirementsOut {
            requirements: vec![
                TemplateRequirement::All(anki_backend::proto::TemplateRequirementAll {
                    ords: vec![0],
                }),
                TemplateRequirement::Any(anki_backend::proto::TemplateRequirementAny {
                    ords: vec![0],
                }),
                TemplateRequirement::Unsatisfiable,
                TemplateRequirement::Unsatisfiable,
                TemplateRequirement::Unsatisfiable,
            ],
        },
    ));
    assert_eq!(reply, expected);
}

#[test]
fn render_template_nodes_and_failure() {
    let mut b = new_backend();
    run(&mut b, open_input("a"));
    let req = BackendInput::RenderCard(RenderCardIn {
        question_template: b"Q: {hint:Front}!".to_vec(),
        answer_template: b"{Back}".to_vec(),
        fields: vec![
            FieldValue { name: b"Front".to_vec(), value: b"2+2".to_vec() },
            FieldValue { name: b"Back".to_vec(), value: b"4".to_vec() },
        ],
        card_ordinal: 0,
    });
    let expected = expect(BackendOutput::RenderCard(RenderCardOut {
        question_nodes: vec![
            RenderedNode::Text(b"Q: ".to_vec()),
            RenderedNode::Replacement(RenderedTemplateReplacement {
                field_name: b"Front".to_vec(),
                current_text: b"2+2".to_vec(),
                filters: vec![b"hint".to_vec()],
            }),
            RenderedNode::Text(b"!".to_vec()),
        ],
        answer_nodes: vec![RenderedNode::Replacement(RenderedTemplateReplacement {
            field_name: b"Back".to_vec(),
            current_text: b"4".to_vec(),
            filters: Vec::new(),
        })],
    }));
    assert_eq!(run(&mut b, req), expected);
    // an unclosed reference is a template parse failure
    let bad = BackendInput::RenderCard(RenderCardIn {
        question_template: b"{oops".to_vec(),
        answer_template: Vec::new(),
        fields: Vec::new(),
        card_ordinal: 0,
    });
    assert_eq!(
        run(&mut b, bad),
        error_reply(&b, AnkiError::TemplateError { info: b"unclosed field reference".to_vec() })
    );
}

#[test]
fn search_cards_and_notes() {
    let mut b = new_backend();
    run(&mut b, open_input("a"));
    let mut c1 = plain_card();
    c1.nid = 5;
    c1.due = 30;
    let mut c2 = plain_card();
    c2.nid = 6;
    c2.due = 10;
    let mut c3 = plain_card();
    c3.nid = 5;
    c3.due = 20;
    run(&mut b, BackendInput::AddCard(c1));
    run(&mut b, BackendInput::AddCard(c2));
    run(&mut b, BackendInput::AddCard(c3));
    // empty search matches everything in storage order
    let all = BackendInput::SearchCards(SearchCardsIn {
        search: Vec::new(),
        order: SortOrder::NoOrder,
    });
    assert_eq!(
        run(&mut b, all),
        expect(BackendOutput::SearchCards(SearchCardsOut { card_ids: vec![1, 2, 3] }))
    );
    // a numeric search matches that note's cards
    let by_note = BackendInput::SearchCards(SearchCardsIn {
        search: b"5".to_vec(),
        order: SortOrder::NoOrder,
    });
    assert_eq!(
        run(&mut b, by_note),
        expect(BackendOutput::SearchCards(SearchCardsOut { card_ids: vec![1, 3] }))
    );
    // builtin due order sorts by the due stamp; kind 7 is card due
    let by_due = BackendInput::SearchCards(SearchCardsIn {
        search: Vec::new(),
        order: SortOrder::Builtin(BuiltinSortOrder { kind: 7, reverse: false }),
    });
    assert_eq!(
        run(&mut b, by_due),
        expect(BackendOutput::SearchCards(SearchCardsOut { card_ids: vec![2, 3, 1] }))
    );
    let by_due_rev = BackendInput::SearchCards(SearchCardsIn {
        search: Vec::new(),
        order: SortOrder::Builtin(BuiltinSortOrder { kind: 7, reverse: true }),
    });
    assert_eq!(
        run(&mut b, by_due_rev),
        expect(BackendOutput::SearchCards(SearchCardsOut { card_ids: vec![1, 3, 2] }))
    );
    // notes deduplicate
    let notes = BackendInput::SearchNotes(SearchNotesIn { search: Vec::new() });
    assert_eq!(
        run(&mut b, notes),
        expect(BackendOutput::SearchNotes(anki_backend::proto::SearchNotesOut {
            note_ids: vec![5, 6],
        }))
    );
    // an unparseable search is invalid input
    let bad = BackendInput::SearchCards(SearchCardsIn {
        search: b"deck:x".to_vec(),
        order: SortOrder::NoOrder,
    });
    assert_eq!(
        run(&mut b, bad),
        error_reply(&b, AnkiError::InvalidInput { info: b"invalid search".to_vec() })
    );
}

struct CancelOnSecond {
    calls: u32,
}

impl ProgressHandler for CancelOnSecond {
    fn on_progress(&mut self, bytes: Vec<u8>) -> bool {
        assert!(!bytes.is_empty());
        self.calls += 1;
        self.calls < 2
    }
}

#[test]
fn sync_media_cancellation_keeps_handle_usable() {
    let i18n = I18n::new(Vec::new(), Vec::new());
    let mut b: Backend<CancelOnSecond> = Backend::new(i18n, false);
    let open_bytes = encode_input(&open_input("a"));
    b.run_command_bytes(&open_bytes);
    for name in ["one.mp3", "two.mp3"] {
        let add = encode_input(&BackendInput::AddMediaFile(AddMediaFileIn {
            desired_name: name.as_bytes().to_vec(),
            data: b"bits".to_vec(),
        }));
        b.run_command_bytes(&add);
    }
    b.set_progress_callback(Some(CancelOnSecond { calls: 0 }));
    let sync = encode_input(&BackendInput::SyncMedia(SyncMediaIn {
        hkey: b"k".to_vec(),
        endpoint: b"https://sync".to_vec(),
    }));
    let reply = b.run_command_bytes(&sync);
    // cancelled on the second progress message: the reply carries
    // interrupted
    let expected =
        encode_output(&BackendOutput::Error(anki_error_to_proto_error(&AnkiError::Interrupted, b.i18n())));
    assert_eq!(reply, expected);
    // the handle stays usable: a media check succeeds afterwards
    b.set_progress_callback(None);
    let check = encode_input(&BackendInput::CheckMedia);
    let reply2 = b.run_command_bytes(&check);
    let expected2 = encode_output(&BackendOutput::CheckMedia(anki_backend::proto::MediaCheckOut {
        unused: Vec::new(),
        missing: Vec::new(),
        report: b"checked 2".to_vec(),
        have_trash: false,
    }));
    assert_eq!(reply2, expected2);
}

#[test]
fn media_trash_lifecycle() {
    let mut b = new_backend();
    run(&mut b, open_input("a"));
    run(
        &mut b,
        BackendInput::AddMediaFile(AddMediaFileIn {
            desired_name: b"pic.png".to_vec(),
            data: b"img".to_vec(),
        }),
    );
    // trash the file; the check reports trash present
    assert_eq!(
        run(&mut b, BackendInput::TrashMediaFiles(TrashMediaFilesIn {
            fnames: vec![b"pic.png".to_vec()],
        })),
        expect(BackendOutput::TrashMediaFiles)
    );
    let check = run(&mut b, BackendInput::CheckMedia);
    assert_eq!(
        check,
        expect(BackendOutput::CheckMedia(anki_backend::proto::MediaCheckOut {
            unused: Vec::new(),
            missing: Vec::new(),
            report: b"checked 0".to_vec(),
            have_trash: true,
        }))
    );
    // restore brings it back; the trash is empty again
    assert_eq!(run(&mut b, BackendInput::RestoreTrash), expect(BackendOutput::RestoreTrash));
    let check2 = run(&mut b, BackendInput::CheckMedia);
    assert_eq!(
        check2,
        expect(BackendOutput::CheckMedia(anki_backend::proto::MediaCheckOut {
            unused: Vec::new(),
            missing: Vec::new(),
            report: b"checked 1".to_vec(),
            have_trash: false,
        }))
    );
    // empty-trash discards for good
    run(&mut b, BackendInput::TrashMediaFiles(TrashMediaFilesIn {
        fnames: vec![b"pic.png".to_vec()],
    }));
    assert_eq!(run(&mut b, BackendInput::EmptyTrash), expect(BackendOutput::EmptyTrash));
    let check3 = run(&mut b, BackendInput::CheckMedia);
    assert_eq!(
        check3,
        expect(BackendOutput::CheckMedia(anki_backend::proto::MediaCheckOut {
            unused: Vec::new(),
            missing: Vec::new(),
            report: b"checked 0".to_vec(),
            have_trash: false,
        }))
    );
}

#[test]
fn init_backend_round_trip() {
    let init = BackendInit {
        preferred_langs: vec![b"en".to_vec()],
        locale_folder_path: b"locales".to_vec(),
        server: false,
    };
    let bytes = encode_init(&init);
    let backend: Backend<NoProgress> =
        anki_backend::backend::init_backend(&bytes).expect("init decodes");
    assert_eq!(backend.i18n().preferred_langs, vec![b"en".to_vec()]);
    // garbage init bytes are refused with the decode error text
    let err = anki_backend::backend::init_backend::<NoProgress>(&[0xff, 0xff]).err().unwrap();
    assert_eq!(err, b"couldn't decode init request".to_vec());
}
