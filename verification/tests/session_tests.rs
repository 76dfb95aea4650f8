use pulsar::args;
use pulsar::args::{ArgFault, Event, Opt, Reader, Width};
use pulsar::checks;
use pulsar::checks::Verdict;
use pulsar::session;
use pulsar::session::{Chat, Drafts, Mode, PlainTurn, PromptFault, PromptPlan, Role, TurnPlan};
use pulsar::stats;
use pulsar::stats::{Prof, TierStat, Times};
use pulsar::store::StreamingStore;
use pulsar::tensors::{ExpertTensor, Quant};
use pulsar::utf8;
use std::collections::HashMap;

fn reader(line: &str) -> Reader {
    Reader::new(line.split(' ').filter(|s| !s.is_empty()).map(|s| s.to_string()).collect(), false)
}

#[test]
fn defaults_of_the_command_line() {
    let mut r = reader("");
    assert!(matches!(r.next(), Event::Done));
    assert_eq!((r.got.n_predict, r.got.ctx, r.got.seed, r.got.min_p), (None, 2048, 42, 0));
    assert!(r.got.model.is_none() && r.got.bos.is_none() && !r.got.chat && !r.got.jinja);
}

#[test]
fn a_model_is_needed() {
    assert_eq!(session::model_path(None), Err("missing -m MODEL.gguf"));
    assert_eq!(session::model_path(Some("m.gguf".to_string())), Ok("m.gguf".to_string()));
}

#[test]
fn options_set_what_they_name() {
    let mut r = reader(
        "-m m.gguf -p hi --tokens 1,2 -n 7 --ctx 99 --no-bos --bos --dump-logits d --teacher-force \
         --decode-consistency 3 --rows-consistency 4 --dspark-capture 5 --chat --system s --seed 8 --jinja-chat -n 9",
    );
    assert!(matches!(r.next(), Event::Done));
    let a = &r.got;
    assert_eq!(a.model.as_deref(), Some("m.gguf"));
    assert_eq!(a.prompt.as_deref(), Some("hi"));
    assert_eq!(a.tokens.as_deref(), Some("1,2"));
    assert_eq!((a.n_predict, a.ctx, a.bos, a.seed), (Some(9), 99, Some(true), 8));
    assert_eq!(a.dump_logits.as_deref(), Some("d"));
    assert_eq!((a.decode_consistency, a.rows_consistency), (Some(3), Some(4)));
    assert_eq!(a.capture.as_deref(), Some("5"));
    assert_eq!(a.system.as_deref(), Some("s"));
    assert!(a.teacher_force && a.chat && a.jinja);
}

#[test]
fn reading_stops_for_files_and_reals() {
    let mut r = reader("-f a.txt --temp 0.5 --top-p 0.9 --min-p 0.1 --chat");
    match r.next() {
        Event::PromptFile { path } => assert_eq!(path, "a.txt"),
        _ => panic!("no file"),
    }
    r.give_prompt("text".to_string());
    for want in [Opt::Temp, Opt::TopP, Opt::MinP] {
        match r.next() {
            Event::Real { opt, value } => {
                assert_eq!(opt, want);
                r.give_real(opt, value.parse::<f32>().unwrap().to_bits());
            }
            _ => panic!("no number"),
        }
    }
    assert!(matches!(r.next(), Event::Done));
    assert_eq!(r.got.prompt.as_deref(), Some("text"));
    assert_eq!(r.got.temp, Some(0.5f32.to_bits()));
    assert_eq!(r.got.top_p, Some(0.9f32.to_bits()));
    assert_eq!(r.got.min_p, 0.1f32.to_bits());
    assert!(r.got.chat);
}

#[test]
fn bad_command_lines_are_refused() {
    match reader("--bogus").next() {
        Event::Refused(f) => {
            assert!(matches!(f, ArgFault::Unknown { .. }));
            assert_eq!(args::fault_message(&f).unwrap(), "unknown arg --bogus, try --help");
        }
        _ => panic!("accepted"),
    }
    match reader("--chat -f").next() {
        Event::Refused(f) => assert_eq!(args::fault_message(&f).unwrap(), "--prompt-file needs a value"),
        _ => panic!("accepted"),
    }
    for (line, width) in [("-n x", Width::Word), ("--ctx 4294967296", Width::Bits32), ("--seed -1", Width::Bits64)] {
        match reader(line).next() {
            Event::Refused(ArgFault::NotANumber { width: w, .. }) => assert_eq!(w, width),
            _ => panic!("accepted"),
        }
    }
    let f = ArgFault::NotANumber { value: "x".to_string(), width: Width::Word };
    assert!(args::fault_message(&f).is_none());
}

#[test]
fn help_hides_what_follows() {
    assert!(matches!(reader("-h --bogus").next(), Event::ShowHelp));
    assert!(matches!(reader("--help").next(), Event::ShowHelp));
    assert!(matches!(reader("-V --bogus").next(), Event::ShowVersion));
    assert!(matches!(reader("--bogus -h").next(), Event::Refused(_)));
    assert_eq!(args::opt_of("--prompt-file"), Some(Opt::PromptFile));
    assert_eq!(args::opt_of("chat"), None);
}

#[test]
fn template_setting() {
    for off in [None, Some("0"), Some(""), Some("FALSE"), Some("Off")] {
        assert!(!session::jinja_on(off));
    }
    for on in [Some("1"), Some("true"), Some("00"), Some("no")] {
        assert!(session::jinja_on(on));
    }
    assert!(session::template_offline(false, false));
    assert!(session::template_offline(true, true));
    assert!(!session::template_offline(true, false));
}

#[test]
fn id_lists() {
    assert_eq!(session::token_ids(" 1, 22 ,+3").unwrap(), vec![1, 22, 3]);
    assert_eq!(session::token_ids("1,,2"), Err("".to_string()));
    assert_eq!(session::token_ids(""), Err("".to_string()));
    assert_eq!(session::token_ids("1,4294967296"), Err("4294967296".to_string()));
    assert_eq!(session::layer_ids("41,42").unwrap(), vec![41, 42]);
    assert_eq!(session::layer_ids("41, x ").err(), Some("x".to_string()));
    assert_eq!(session::parse_list("7", 6), Err("7".to_string()));
}

#[test]
fn prompts_are_planned() {
    assert!(matches!(session::plan_prompt(Some("4,5"), true, None, true, None), Ok(PromptPlan::Ids(v)) if v == vec![4, 5]));
    assert!(matches!(session::plan_prompt(None, true, None, true, Some(1)), Ok(PromptPlan::Encode { lead: Some(1) })));
    assert!(matches!(session::plan_prompt(None, true, Some(false), true, Some(1)), Ok(PromptPlan::Encode { lead: None })));
    let f = session::plan_prompt(None, true, Some(true), false, None).err().unwrap();
    assert_eq!(session::prompt_message(&f), Some("model has no BOS id"));
    let f = session::plan_prompt(None, false, None, false, None).err().unwrap();
    assert_eq!(session::prompt_message(&f), Some("need -p TEXT or --tokens IDS"));
    assert!(matches!(session::plan_prompt(Some("a"), false, None, false, None), Err(PromptFault::BadId { item }) if item == "a"));
    assert_eq!(session::with_lead(Some(9), vec![1, 2]), vec![9, 1, 2]);
    assert_eq!(session::with_lead(None, vec![1, 2]), vec![1, 2]);
}

#[test]
fn long_prompts_change_settings() {
    let r = session::long_prompt(384, false, false);
    assert_eq!((r.batch, r.dev_cache_gb), (None, None));
    let r = session::long_prompt(385, false, false);
    assert_eq!((r.batch, r.dev_cache_gb), (Some(385), Some(2)));
    let r = session::long_prompt(5000, false, true);
    assert_eq!((r.batch, r.dev_cache_gb), (Some(768), None));
    assert_eq!(session::long_prompt(5000, true, true).batch, None);
    let d = session::draft_settings(None, false);
    assert_eq!((d.dev_cache_gb.as_str(), d.batch, d.cache_gb, d.tiers), ("1", "8", "2", Some("off")));
    let d = session::draft_settings(Some("5"), true);
    assert_eq!((d.dev_cache_gb.as_str(), d.tiers), ("5", None));
}

fn mode(line: &str, d: Drafts) -> Mode {
    let mut r = reader(line);
    assert!(matches!(r.next(), Event::Done));
    session::choose_mode(&r.got, d)
}

#[test]
fn modes_have_an_order() {
    let none = Drafts { model: false, block: false, own: false };
    let all = Drafts { model: true, block: true, own: true };
    assert_eq!(mode("", none), Mode::Plain);
    assert_eq!(mode("", all), Mode::DraftModel);
    assert_eq!(mode("", Drafts { model: false, ..all }), Mode::BlockDraft);
    assert_eq!(mode("", Drafts { own: true, ..none }), Mode::Speculate);
    assert_eq!(mode("--dump-logits d", all), Mode::DumpLogits);
    assert_eq!(mode("--decode-consistency 4 --dump-logits d", all), Mode::Decode(4));
    assert_eq!(mode("--rows-consistency 3 --decode-consistency 4", all), Mode::Rows(3));
    assert_eq!(mode("--dspark-capture 1 --rows-consistency 3", all), Mode::Capture);
    assert_eq!(mode("--teacher-force --dspark-capture 1", all), Mode::TeacherTop);
    assert_eq!(mode("--teacher-force --dump-logits d", all), Mode::TeacherDump);
    assert_eq!(mode("--chat --teacher-force", all), Mode::Chat);
    assert!(session::own_drafts(Some("1"), false));
    assert!(session::own_drafts(None, true));
    assert!(!session::own_drafts(Some("2"), false));
    assert!(session::rows_allowed(2, 2).is_ok());
    assert_eq!(session::rows_allowed(1, 5).err().unwrap(), "--rows-consistency needs 2..=5 rows");
    assert!(session::rows_allowed(6, 5).is_err());
}

#[test]
fn one_shot_decode_ends() {
    assert_eq!(session::decode_end(10, 5), 15);
    assert_eq!(session::decode_end(u32::MAX - 1, 5), u32::MAX);
    assert_eq!(session::decode_end(10, 0x1_0000_0002), u32::MAX);
    assert_eq!(session::decode_end(0, usize::MAX), u32::MAX);
    assert_eq!(session::plain_turn(3, 3, 9, false), PlainTurn::Stop);
    assert_eq!(session::plain_turn(2, 3, 9, true), PlainTurn::Stop);
    assert_eq!(session::plain_turn(2, 3, 2, false), PlainTurn::Last);
    assert_eq!(session::plain_turn(2, 3, 9, false), PlainTurn::Go);
    let (end, ctx) = (session::decode_end(0, 100), 4);
    let mut shown = 0;
    for pos in 0.. {
        match session::plain_turn(pos, end, ctx, false) {
            PlainTurn::Stop => break,
            PlainTurn::Last => {
                shown += 1;
                break;
            }
            PlainTurn::Go => shown += 1,
        }
    }
    assert_eq!(shown, 5);
}

fn roles(c: &Chat) -> Vec<(Role, String)> {
    c.history.iter().map(|m| (m.role, m.content.clone())).collect()
}

#[test]
fn chat_with_a_template_keeps_its_history() {
    let mut c = Chat::new(true, None, Some("own".to_string()));
    assert_eq!(roles(&c), vec![(Role::System, "own".to_string())]);
    assert_eq!(c.begin("hello"), TurnPlan::Template);
    c.rendered();
    c.replied("yes".to_string(), 12);
    assert_eq!(c.pos, 12);
    assert_eq!(c.begin("again"), TurnPlan::Template);
    let before = roles(&c).len();
    assert_eq!(c.render_failed(), TurnPlan::Markers { prologue: true });
    assert_eq!(roles(&c).len(), before - 1);
    assert_eq!(roles(&c).last().unwrap(), &(Role::Assistant, "yes".to_string()));
    assert_eq!(c.pos, 12);
    c.begin("more");
    assert_eq!(c.render_failed(), TurnPlan::Markers { prologue: false });
    c.begin("last");
    c.rendered();
    assert_eq!(c.pos, 0);
    let names: Vec<&str> = c.history.iter().map(|m| m.role.name()).collect();
    assert_eq!(names, vec!["system", "user", "assistant", "user"]);
}

#[test]
fn chat_with_markers_sends_its_prologue_once() {
    let mut c = Chat::new(false, Some("sys".to_string()), None);
    assert!(c.history.is_empty());
    assert_eq!(c.begin("a"), TurnPlan::Markers { prologue: true });
    c.replied("r".to_string(), 40);
    assert_eq!(c.begin("b"), TurnPlan::Markers { prologue: false });
    assert!(c.history.is_empty());
    assert!(c.has_room(57, 100));
    assert!(!c.has_room(58, 100));
    assert_eq!(session::full_message(40, 100), "pulsar chat: context full (40/100), restart to continue");
    assert_eq!(Chat::line("  hi there \n").as_deref(), Some("hi there"));
    assert_eq!(Chat::line(" \n"), None);
    assert_eq!((session::reply_limit(Some(16)), session::reply_limit(Some(17))), (16, 17));
    assert_eq!((session::reply_limit(Some(1)), session::reply_limit(None)), (1, 1024));
    assert_eq!((session::run_limit(Some(1)), session::run_limit(None)), (1, 16));
    assert_eq!(session::chat_sampling(None, None, None, None), (0.9f32.to_bits(), 1.0f32.to_bits()));
    assert_eq!(session::chat_sampling(Some(5), None, Some(6), Some(7)), (5, 7));
}

#[test]
fn closing_texts() {
    assert_eq!(session::ids_text(&vec![1, 20, 3]), format!("{:?}", vec![1, 20, 3]));
    assert_eq!(session::ids_text(&Vec::new()), "[]");
    assert_eq!(session::tier_note(0, 0, 0, 0, "0"), "");
    assert_eq!(
        session::tier_note(3, 2, 1, 4, "25"),
        ", tier 3 resident slots, cpu lane 2 experts, mtp 1/4 drafts accepted (25%)"
    );
    assert_eq!(session::drafts_text(1, 4, "25"), "1/4 drafts accepted (25%)");
    assert_eq!(session::dump_row(&vec![0x0102_0304], true).unwrap(), vec![1, 0, 0, 0, 4, 3, 2, 1]);
    assert_eq!(session::dump_row(&vec![0x0102_0304], false).unwrap(), vec![4, 3, 2, 1]);
}

#[test]
fn text_is_shown_up_to_a_broken_character() {
    let samples: Vec<Vec<u8>> = vec![
        b"plain".to_vec(),
        "h\u{e9}\u{20ac}\u{1f600}".as_bytes().to_vec(),
        vec![0x61, 0xe2, 0x82],
        vec![0x61, 0xff, 0x62],
        vec![0xc0, 0x80],
        vec![0xed, 0xa0, 0x80],
        vec![0xf4, 0x90, 0x80, 0x80],
        vec![0xe0, 0x80, 0x80],
        vec![0x80],
        Vec::new(),
    ];
    for s in samples {
        let want = match std::str::from_utf8(&s) {
            Ok(_) => s.len(),
            Err(e) => e.valid_up_to(),
        };
        assert_eq!(utf8::valid_up_to(&s), want);
        let mut buf = s.clone();
        let out = utf8::take_valid(&mut buf);
        assert_eq!(out.len(), want);
        let mut whole = out.clone();
        whole.extend_from_slice(&buf);
        assert_eq!(whole, s);
        assert!(std::str::from_utf8(&out).is_ok());
    }
}

fn bits(v: &[f32]) -> Vec<u32> {
    v.iter().map(|x| x.to_bits()).collect()
}

#[test]
fn leads_and_verdicts() {
    let (a, b) = checks::top_two(&bits(&[1.0, 4.0, f32::NAN, 4.0, 2.0]));
    assert_eq!((f32::from_bits(a), f32::from_bits(b)), (4.0, 4.0));
    let (a, b) = checks::top_two(&bits(&[1.0, -2.0]));
    assert_eq!((f32::from_bits(a), f32::from_bits(b)), (1.0, -2.0));
    assert_eq!(checks::top_two(&Vec::new()), (checks::BELOW_ALL, checks::BELOW_ALL));
    assert_eq!(f32::from_bits(checks::BELOW_ALL), f32::NEG_INFINITY);
    assert_eq!(checks::verdict(1, 1, false), Verdict::Match);
    assert_eq!(checks::verdict(1, 2, true), Verdict::Drift);
    assert_eq!(checks::verdict(1, 2, false), Verdict::Wrong);
    assert_eq!(checks::verdict_text(Verdict::Match), "match");
    assert_eq!(checks::verdict_text(Verdict::Drift), "flip within drift");
    assert_eq!(checks::verdict_text(Verdict::Wrong), "FLIP OUTSIDE DRIFT");
}

#[test]
fn captures_are_checked() {
    let row = bits(&[1.0, 0.0, -0.0, 0.0, 1.0, 0.0]);
    let s = checks::slot_state(&row, 0, 2);
    assert_eq!((s.nonzero, s.finite, s.is_bad()), (1, true, false));
    assert!(checks::slot_state(&row, 2, 2).is_bad());
    let bad = bits(&[1.0, f32::INFINITY]);
    assert!(checks::slot_state(&bad, 0, 2).is_bad());
    assert_eq!(checks::collisions(&row, 2, 3), vec![(0, 2)]);
    assert!(checks::rows_agree(&bits(&[0.0]), &bits(&[-0.0])));
    assert!(!checks::rows_agree(&bits(&[f32::NAN]), &bits(&[f32::NAN])));
    assert!(!checks::rows_agree(&bits(&[1.0]), &bits(&[1.0, 1.0])));
    assert_eq!(checks::capture_faults(1, 2, true, false), 4);
}

#[test]
fn profile_report() {
    let p = Prof {
        sync: 1_500_000_000,
        resolve: 3_000_000_000,
        resolve_d2h: 1_000_000_000,
        absorbed: 4,
        calls: 9,
        pred_hits: 1,
        pred_total: 2,
        ..Prof::default()
    };
    assert_eq!(p.other(), 2_000_000_000);
    let r = p.report("50");
    assert_eq!(
        r,
        "gpu-wait 1.50s, resolve 3.00s (d2h 1.00s, lists 0.00s, host 0.00s, disk 0.00s, h2d 0.00s, absorb 0.00s/4 slabs, \
         ptrs 0.00s, other 2.00s), cpu-lane 0.00s, logits-tail 0.00s over 9 layer steps\n\
         pulsar: cross-layer prefetch predicted 1/2 routed experts (50%)"
    );
    let t = Times {
        sync: "a".to_string(),
        resolve: "b".to_string(),
        d2h: "c".to_string(),
        lists: "d".to_string(),
        host: "e".to_string(),
        disk: "f".to_string(),
        h2d: "g".to_string(),
        absorb: "h".to_string(),
        ptrs: "i".to_string(),
        other: "j".to_string(),
        cpu: "k".to_string(),
        tail: "l".to_string(),
    };
    let plain = stats::render_report(&t, &Prof::default(), "0");
    assert!(plain.starts_with("gpu-wait as, resolve bs (d2h cs,"));
    assert!(!plain.contains("predicted"));
}

#[test]
fn residency_figures() {
    let tiers = vec![TierStat { dev: 1, bytes: 100, hits: 0 }, TierStat { dev: 2, bytes: 50, hits: 0 }];
    assert_eq!(stats::vram_resident(&tiers, 3, 10), 180);
    assert_eq!(stats::kv_headroom(&vec![0, 1], &vec![7, 8], &tiers, 0, 1000), 7 + 1000 + 8 + 100);
}

#[test]
fn expert_cells_say_where_and_how_hot() {
    let gate = ExpertTensor { abs_offset: 1000, expert_bytes: 100, row_bytes: 10, quant: Quant::Q4K };
    let mut tier = HashMap::new();
    tier.insert(1000u64, 0usize);
    let mut st: StreamingStore<u8> = StreamingStore::open(1000);
    st.keep(1100, 0, 100);
    let cells = stats::expert_map(&vec![None, Some(gate)], 3, &vec![tier], &st, &vec![0, 0, 0, 5, 6]);
    let got: Vec<(u32, u32, u8, u64)> = cells.iter().map(|c| (c.layer, c.expert, c.tier, c.heat)).collect();
    assert_eq!(got, vec![(1, 0, 3, 5), (1, 1, 2, 6), (1, 2, 0, 0)]);
}
