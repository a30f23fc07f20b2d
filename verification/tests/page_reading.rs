use isac::color::{exp_color, overall_dmg_color, pr_color, ColorStats};
use isac::error::{IsacError, IsacInfo};
use isac::scrape::{
    battles_of, clan_name_of, clan_records, clan_uid_of, color_code_of, history_text, player_link,
    number_row, player_uid_of, rename_entry, stat_text, transfer_table, HistoryEntry, NumberCells,
    RenameFault,
};

#[test]
fn links_and_numbers() {
    assert_eq!(clan_uid_of("https://asia.wows-numbers.com/clan/2000004,PANTS-Dont-Cap/"), Some(2000004));
    assert_eq!(clan_uid_of("/clan/,x"), None);
    assert_eq!(clan_uid_of("/clan/99999999999999999999,x"), None);
    assert_eq!(player_uid_of("/player/2022515210,B2U/"), Some(2022515210));
    assert_eq!(player_uid_of("/ship/1,/"), None);
    assert_eq!(player_link("/player/2022515210,B2U/"), (2022515210, "B2U".to_string()));
    assert_eq!(player_link("/clan/1,x/"), (0, "---".to_string()));
    assert_eq!(color_code_of("color:#02C9B3;font-weight:bold"), Some("#02C9B3".to_string()));
    assert_eq!(color_code_of("color:red"), None);
    assert_eq!(stat_text(" 57.12 %\n"), "57.12");
    assert_eq!(battles_of("1 234"), Some(1234));
    assert_eq!(battles_of("n/a"), None);
}

#[test]
fn transfer_tables() {
    match transfer_table(0) {
        Err(IsacError::Info(IsacInfo::GeneralError { msg })) => assert_eq!(msg, "No transfer history"),
        _ => panic!(),
    }
    assert_eq!(transfer_table(1).ok(), Some(0));
    assert_eq!(transfer_table(2).ok(), Some(1));
    match transfer_table(3) {
        Err(IsacError::Info(IsacInfo::GeneralError { msg })) => assert_eq!(msg, "Parsing failed, tables.len() = 3"),
        _ => panic!(),
    }
    assert_eq!(clan_name_of("  [PANTS]  Dont Cap"), "[PANTS]");
    assert_eq!(clan_name_of("   "), "[]");
}

#[test]
fn clan_records_one_per_clan() {
    let input = vec![
        (5u64, "[B]".to_string()),
        (2u64, "[Z]".to_string()),
        (5u64, "[A]".to_string()),
        (2u64, "[Z]".to_string()),
        (9u64, "[Q]".to_string()),
    ];
    assert_eq!(
        clan_records(&input),
        vec![(2, "[Z]".to_string()), (5, "[A]".to_string()), (9, "[Q]".to_string())]
    );
}

#[test]
fn rename_rows_and_history() {
    match rename_entry("/player/77,x/", 77, "15.05.2015", "Old_Name") {
        Ok(Some((_, date, ign))) => {
            assert_eq!(date, "2015.05.15");
            assert_eq!(ign, "Old_Name");
        }
        _ => panic!("expected an entry"),
    }
    assert!(matches!(rename_entry("/player/78,x/", 77, "15.05.2015", "x"), Ok(None)));
    assert_eq!(rename_entry("nolink", 77, "15.05.2015", "x").err(), Some(RenameFault::NoPlayerLink));
    assert_eq!(rename_entry("/player/77,x/", 77, "2015-05-15", "x").err(), Some(RenameFault::BadDate));
    let day = |d: &str| match rename_entry("/player/1,/", 1, d, "n") {
        Ok(Some((k, t, _))) => (k, t),
        _ => panic!(),
    };
    let (d1, t1) = day("01.02.2020");
    let (d2, t2) = day("31.12.2019");
    assert!(d2 < d1);
    let text = history_text(vec![
        HistoryEntry { day: d1, date: t1, ign: "NewName".to_string(), clan_tag: "[B]".to_string() },
        HistoryEntry { day: d2, date: t2, ign: "OldName".to_string(), clan_tag: "[A]".to_string() },
    ]);
    assert_eq!(text, "```py\nOldName [A], 2019.12.31\nNewName [B], 2020.02.01\n\n```");
    assert_eq!(history_text(vec![]), "```py\n\n```");
}

#[test]
fn integer_color_bands() {
    assert_eq!(pr_color(2450), ColorStats::SuperUnicum);
    assert_eq!(pr_color(2449), ColorStats::Unicum);
    assert_eq!(pr_color(0), ColorStats::Bad);
    assert_eq!(pr_color(-2), ColorStats::White);
    assert_eq!(overall_dmg_color(30000), ColorStats::Good);
    assert_eq!(exp_color(1000), ColorStats::Good);
    assert_eq!(exp_color(599), ColorStats::Bad);
}

fn cells(links: Vec<(&str, &str)>, battles: &str, style: &str) -> NumberCells {
    NumberCells {
        rank_text: "3".to_string(),
        links: links.into_iter().map(|(t, h)| (t.to_string(), h.to_string())).collect(),
        battles_text: battles.to_string(),
        stats: (0..5).map(|i| (style.to_string(), format!(" {}.5 %", i))).collect(),
    }
}

#[test]
fn number_row_reads_a_board_row() {
    let r = number_row(&cells(
        vec![("[PANTS]", "/clan/1,PANTS/"), ("B2U", "/player/2022515210,B2U/")],
        "1 234",
        "color: #02C9B3;",
    ))
    .expect("readable");
    assert_eq!(r.rank, 3);
    assert_eq!(r.clan, "[PANTS]");
    assert_eq!((r.uid, r.ign.as_str()), (2022515210, "B2U"));
    assert_eq!(r.battles, 1234);
    assert_eq!((r.pr.value.as_str(), r.pr.color.as_str()), ("0.5", "#02C9B3"));
    assert_eq!(r.planes.value, "4.5");
    let solo = number_row(&cells(vec![("B2U", "/player/7,B2U/")], "10", "color: #02C9B3;")).expect("readable");
    assert_eq!((solo.clan.as_str(), solo.uid), ("", 7));
    assert!(number_row(&cells(vec![], "10", "color: #02C9B3;")).is_none());
    assert!(number_row(&cells(vec![("B2U", "/player/7,B2U/")], "ten", "color: #02C9B3;")).is_none());
    assert!(number_row(&cells(vec![("B2U", "/player/7,B2U/")], "10", "color: red;")).is_none());
}
