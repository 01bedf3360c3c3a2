use claude_buddy_changer::assets::Assets;
use claude_buddy_changer::buddy::{
    check_stat_name, config_user_id, default_salt, detect_user_id, parse_min_stat_name, render_blink_sprite, render_face,
    render_sprite, render_sprite_frames, roll_with_salt, search_salts, sprite_frame_count,
    try_roll_with_salt, Buddy, ConfigCandidate, ConfigContent, ConfigFile, MinStat, SearchFilters, SearchParams,
    Stats,
};
use claude_buddy_changer::rng::{hash_string, Mulberry32};
use claude_buddy_changer::search::{generate_salt, matches_filters};

fn strings(items: &[&str]) -> Vec<String> {
    items.iter().map(|s| s.to_string()).collect()
}

fn frames(lines: &[&[&str]]) -> Vec<Vec<String>> {
    lines.iter().map(|f| strings(f)).collect()
}

fn test_assets() -> Assets {
    Assets {
        default_salt: "friend-2026-401".to_string(),
        rarities: strings(&["common", "uncommon", "rare", "epic", "legendary"]),
        rarity_weights: vec![
            ("common".to_string(), 60),
            ("uncommon".to_string(), 25),
            ("rare".to_string(), 10),
            ("epic".to_string(), 4),
            ("legendary".to_string(), 1),
        ],
        species: strings(&["duck", "cat", "blob"]),
        eyes: strings(&["·", "✦", "×"]),
        hats: strings(&["none", "crown", "tophat"]),
        stat_names: strings(&["DEBUGGING", "PATIENCE", "CHAOS", "WISDOM", "SNARK"]),
        rarity_floor: vec![
            ("common".to_string(), 5),
            ("uncommon".to_string(), 15),
            ("rare".to_string(), 25),
            ("epic".to_string(), 35),
            ("legendary".to_string(), 50),
        ],
        bodies: vec![
            (
                "duck".to_string(),
                frames(&[
                    &["            ", "    __      ", "  <({E} )___  ", "   (  ._>   ", "    `--´    "],
                    &["            ", "    __      ", "  <({E} )___  ", "   (  ._>   ", "    `--´~   "],
                    &["            ", "    __      ", "  <({E} )___  ", "   (  .__>  ", "    `--´    "],
                ]),
            ),
            (
                "cat".to_string(),
                frames(&[
                    &["            ", "   /\\_/\\    ", "  ( {E}   {E})  ", "  (  ω  )   ", "  (\")_(\")   "],
                    &["            ", "   /\\_/\\    ", "  ( {E}   {E})  ", "  (  ω  )   ", "  (\")_(\")~  "],
                    &["            ", "   /\\-/\\    ", "  ( {E}   {E})  ", "  (  ω  )   ", "  (\")_(\")   "],
                ]),
            ),
            (
                "blob".to_string(),
                frames(&[
                    &["   .----.   ", "  ( {E}  {E} )  ", "  (      )  ", "   `----´   "],
                    &["            ", "  .------.  ", " (  {E}  {E}  ) ", "  `------´  "],
                ]),
            ),
        ],
        hat_lines: vec![
            ("crown".to_string(), "   \\^^^/    ".to_string()),
            ("tophat".to_string(), "   [___]    ".to_string()),
        ],
    }
}

fn stats(d: u8, p: u8, c: u8, w: u8, s: u8) -> Stats {
    Stats { debugging: d, patience: p, chaos: c, wisdom: w, snark: s }
}

fn buddy(rarity: &str, species: &str, eye: &str, hat: &str, st: Stats, seed: u32) -> Buddy {
    Buddy {
        rarity: rarity.to_string(),
        species: species.to_string(),
        eye: eye.to_string(),
        hat: hat.to_string(),
        shiny: false,
        stats: st,
        inspiration_seed: seed,
    }
}

fn no_filters() -> SearchFilters {
    SearchFilters { species: None, rarity: None, eye: None, hat: None, shiny: false, min_stat: None }
}

#[test]
fn render_frame_count_matches_assets() {
    let assets = test_assets();
    let buddy = roll_with_salt(&assets, "user-1", default_salt(&assets));
    assert_eq!(
        render_sprite_frames(&assets, &buddy).len(),
        sprite_frame_count(&assets, &buddy.species)
    );
}

#[test]
fn parse_min_stat_rejects_invalid_input() {
    let assets = test_assets();
    let error = parse_min_stat_name("NOTREAL:10", &assets.stat_names).expect_err("should fail");
    assert!(error.contains("Invalid min stat value"));
}

#[test]
fn min_stat_name_is_trimmed_and_upper_cased() {
    let assets = test_assets();
    assert_eq!(
        parse_min_stat_name(" chaos :12.5:rest", &assets.stat_names),
        Ok(Some(("CHAOS".to_string(), "12.5".to_string())))
    );
    assert_eq!(
        parse_min_stat_name("snark", &assets.stat_names),
        Ok(Some(("SNARK".to_string(), String::new())))
    );
    assert_eq!(parse_min_stat_name("", &assets.stat_names), Ok(None));
    assert_eq!(
        parse_min_stat_name("CHAOS:not-a-number", &assets.stat_names),
        Ok(Some(("CHAOS".to_string(), "not-a-number".to_string())))
    );
    assert_eq!(
        parse_min_stat_name("LUCK:3", &assets.stat_names),
        Err("Invalid min stat value: LUCK:3".to_string())
    );
}

#[test]
fn stat_names_are_checked_as_given() {
    let assets = test_assets();
    assert_eq!(
        check_stat_name("CHAOS".to_string(), "5".to_string(), "chaos:5", &assets.stat_names),
        Ok(Some(("CHAOS".to_string(), "5".to_string())))
    );
    assert_eq!(
        check_stat_name("chaos".to_string(), "5".to_string(), "chaos:5", &assets.stat_names),
        Err("Invalid min stat value: chaos:5".to_string())
    );
}

#[test]
fn hash_is_fnv1a_over_utf16_units() {
    let empty: Vec<char> = Vec::new();
    assert_eq!(hash_string(&empty), 2_166_136_261);
    assert_eq!(hash_string(&['a']), 3_826_002_220);
    assert_eq!(hash_string(&['😀']), 3_409_036_472);
    let joined: Vec<char> = "user-1friend-2026-401".chars().collect();
    assert_eq!(hash_string(&joined), 1_771_896_567);
}

#[test]
fn mulberry32_first_draws_from_zero() {
    let mut rng = Mulberry32::new(0);
    assert_eq!(rng.next(), 1_144_304_738);
    assert_eq!(rng.next(), 1_416_247);
    assert_eq!(rng.next(), 958_946_056);
}

#[test]
fn roll_matches_reference_buddies() {
    let assets = test_assets();
    assert_eq!(
        roll_with_salt(&assets, "user-1", "friend-2026-401"),
        buddy("common", "cat", "×", "none", stats(9, 39, 73, 18, 28), 481_628_319)
    );
    assert_eq!(
        roll_with_salt(&assets, "user-1", "x"),
        buddy("uncommon", "blob", "×", "none", stats(74, 39, 21, 12, 27), 602_667_309)
    );
    assert_eq!(
        roll_with_salt(&assets, "user-1", "lab-00000000005"),
        buddy("rare", "cat", "×", "tophat", stats(53, 24, 37, 50, 86), 785_292_170)
    );
    assert_eq!(
        roll_with_salt(&assets, "user-1", "lab-00000000021"),
        buddy("rare", "duck", "·", "crown", stats(17, 57, 80, 48, 64), 438_617_966)
    );
}

#[test]
fn roll_depends_on_concatenation_only() {
    let assets = test_assets();
    assert_eq!(
        roll_with_salt(&assets, "user-1", "friend-2026-401"),
        roll_with_salt(&assets, "user-1friend", "-2026-401")
    );
    assert_eq!(
        roll_with_salt(&assets, "user-1", "x"),
        roll_with_salt(&assets, "user-1", "x")
    );
}

#[test]
fn roll_fails_without_tables() {
    let mut assets = test_assets();
    assets.species = Vec::new();
    assert_eq!(try_roll_with_salt(&assets, "user-1", "x"), None);
    let mut heavy = test_assets();
    heavy.rarity_weights.push(("mythic".to_string(), u32::MAX));
    assert_eq!(try_roll_with_salt(&heavy, "user-1", "x"), None);
}

#[test]
fn stats_get_reads_named_stat() {
    let s = stats(1, 2, 3, 4, 5);
    assert_eq!(s.get("DEBUGGING"), Some(1));
    assert_eq!(s.get("PATIENCE"), Some(2));
    assert_eq!(s.get("CHAOS"), Some(3));
    assert_eq!(s.get("WISDOM"), Some(4));
    assert_eq!(s.get("SNARK"), Some(5));
    assert_eq!(s.get("snark"), None);
}

#[test]
fn sprite_drops_blank_top_line_without_hat() {
    let assets = test_assets();
    let b = buddy("common", "cat", "×", "none", stats(9, 39, 73, 18, 28), 1);
    assert_eq!(
        render_sprite(&assets, &b, 0),
        strings(&["   /\\_/\\    ", "  ( ×   ×)  ", "  (  ω  )   ", "  (\")_(\")   "])
    );
    assert_eq!(
        render_sprite(&assets, &b, 4),
        strings(&["   /\\_/\\    ", "  ( ×   ×)  ", "  (  ω  )   ", "  (\")_(\")~  "])
    );
}

#[test]
fn sprite_puts_hat_on_blank_top_line() {
    let assets = test_assets();
    let b = buddy("rare", "duck", "·", "crown", stats(17, 57, 80, 48, 64), 1);
    assert_eq!(
        render_sprite(&assets, &b, 0),
        strings(&["   \\^^^/    ", "    __      ", "  <(· )___  ", "   (  ._>   ", "    `--´    "])
    );
    assert_eq!(
        render_blink_sprite(&assets, &b, 2),
        strings(&["   \\^^^/    ", "    __      ", "  <(- )___  ", "   (  .__>  ", "    `--´    "])
    );
}

#[test]
fn sprite_keeps_top_line_when_not_all_frames_blank() {
    let assets = test_assets();
    let b = buddy("common", "blob", "✦", "none", stats(1, 2, 3, 4, 5), 1);
    assert_eq!(
        render_sprite(&assets, &b, 1),
        strings(&["            ", "  .------.  ", " (  ✦  ✦  ) ", "  `------´  "])
    );
    let hatted = buddy("rare", "blob", "✦", "tophat", stats(1, 2, 3, 4, 5), 1);
    assert_eq!(
        render_sprite(&assets, &hatted, 0),
        strings(&["   .----.   ", "  ( ✦  ✦ )  ", "  (      )  ", "   `----´   "])
    );
    assert_eq!(render_sprite_frames(&assets, &hatted).len(), 2);
    assert_eq!(
        render_sprite_frames(&assets, &hatted)[1],
        strings(&["   [___]    ", "  .------.  ", " (  ✦  ✦  ) ", "  `------´  "])
    );
}

#[test]
fn faces_follow_species() {
    let st = stats(1, 1, 1, 1, 1);
    let face = |species: &str| render_face(&buddy("common", species, "x", "none", st, 0));
    assert_eq!(face("duck"), "(x>");
    assert_eq!(face("goose"), "(x>");
    assert_eq!(face("blob"), "(xx)");
    assert_eq!(face("cat"), "=xωx=");
    assert_eq!(face("dragon"), "<x~x>");
    assert_eq!(face("octopus"), "~(xx)~");
    assert_eq!(face("owl"), "(x)(x)");
    assert_eq!(face("penguin"), "(x>)");
    assert_eq!(face("turtle"), "[x_x]");
    assert_eq!(face("snail"), "x(@)");
    assert_eq!(face("ghost"), "/xx\\");
    assert_eq!(face("axolotl"), "}x.x{");
    assert_eq!(face("capybara"), "(xoox)");
    assert_eq!(face("cactus"), "|x  x|");
    assert_eq!(face("mushroom"), "|x  x|");
    assert_eq!(face("robot"), "[xx]");
    assert_eq!(face("rabbit"), "(x..x)");
    assert_eq!(face("chonk"), "(x.x)");
    assert_eq!(face("unicorn"), "unicorn");
}

#[test]
fn salts_are_zero_padded_to_length() {
    assert_eq!(generate_salt("lab-", 7, 15), Ok("lab-00000000007".to_string()));
    assert_eq!(generate_salt("lab-", 123, 5), Ok("lab-123".to_string()));
    assert_eq!(generate_salt("", 42, 0), Ok("42".to_string()));
    assert_eq!(
        generate_salt("lab-", 1, 3),
        Err("salt prefix length 4 exceeds target length 3".to_string())
    );
    assert_eq!(generate_salt("é", 1, 3), Ok("é1".to_string()));
}

#[test]
fn search_finds_salts_in_index_order() {
    let assets = test_assets();
    let params = |filters: SearchFilters, max: usize| SearchParams {
        user_id: "user-1".to_string(),
        total: 6,
        prefix: "lab-".to_string(),
        length: 15,
        filters,
        max_matches: max,
    };
    let all = search_salts(&assets, params(no_filters(), 24));
    let salts: Vec<&str> = all.iter().map(|m| m.salt.as_str()).collect();
    assert_eq!(
        salts,
        vec![
            "lab-00000000000",
            "lab-00000000001",
            "lab-00000000002",
            "lab-00000000003",
            "lab-00000000004",
            "lab-00000000005"
        ]
    );
    assert_eq!(
        all[0].buddy,
        buddy("common", "blob", "✦", "none", stats(1, 71, 27, 29, 39), 687_666_305)
    );
    assert_eq!(
        all[1].buddy,
        buddy("common", "duck", "✦", "none", stats(44, 83, 1, 18, 34), 536_996_709)
    );

    let first_two = search_salts(&assets, params(no_filters(), 2));
    assert_eq!(first_two.len(), 2);
    assert_eq!(first_two[1].salt, "lab-00000000001");

    let mut hats = no_filters();
    hats.hat = Some("tophat".to_string());
    let tophats = search_salts(&assets, params(hats, 24));
    assert_eq!(tophats.len(), 1);
    assert_eq!(tophats[0].salt, "lab-00000000005");

    let mut strong = no_filters();
    strong.min_stat = Some(MinStat { name: "PATIENCE".to_string(), at_least: 72 });
    let patient = search_salts(&assets, params(strong, 24));
    let salts: Vec<&str> = patient.iter().map(|m| m.salt.as_str()).collect();
    assert_eq!(salts, vec!["lab-00000000001"]);
}

#[test]
fn filters_check_each_field() {
    let b = buddy("rare", "cat", "×", "tophat", stats(53, 24, 37, 50, 86), 0);
    assert!(matches_filters(&b, &no_filters()));
    let mut f = no_filters();
    f.species = Some("cat".to_string());
    f.rarity = Some("rare".to_string());
    f.eye = Some("×".to_string());
    f.hat = Some("tophat".to_string());
    assert!(matches_filters(&b, &f));
    f.eye = Some("·".to_string());
    assert!(!matches_filters(&b, &f));
    let mut shiny = no_filters();
    shiny.shiny = true;
    assert!(!matches_filters(&b, &shiny));
    let mut at = no_filters();
    at.min_stat = Some(MinStat { name: "SNARK".to_string(), at_least: 86 });
    assert!(matches_filters(&b, &at));
    at.min_stat = Some(MinStat { name: "SNARK".to_string(), at_least: 87 });
    assert!(!matches_filters(&b, &at));
    at.min_stat = Some(MinStat { name: "LUCK".to_string(), at_least: 0 });
    assert!(matches_filters(&b, &at));
    at.min_stat = Some(MinStat { name: "LUCK".to_string(), at_least: 1 });
    assert!(!matches_filters(&b, &at));
}

#[test]
fn user_id_comes_from_first_config_with_one() {
    let cand = |path: &str, file: ConfigFile| ConfigCandidate { path: path.to_string(), file };
    let text = |t: &str| ConfigFile::Text(t.to_string());
    let list = vec![
        cand("/h/.acme/.config.json", ConfigFile::Missing),
        cand("/h/.acme.json", text(r#"{"oauthAccount":{"accountUuid":""},"userID":"legacy-id"}"#)),
    ];
    assert_eq!(detect_user_id(&list), Ok("legacy-id".to_string()));
    let list = vec![
        cand("/h/.acme/.config.json", text(r#"{"oauthAccount":{"accountUuid":"uuid-1"},"userID":"legacy-id"}"#)),
        cand("/h/.acme.json", text(r#"{"userID":"other"}"#)),
    ];
    assert_eq!(detect_user_id(&list), Ok("uuid-1".to_string()));
    let list = vec![
        cand("/h/.acme/.config.json", text("not json")),
        cand("/h/.acme.json", ConfigFile::Unreadable("permission denied".to_string())),
    ];
    assert_eq!(detect_user_id(&list), Err("permission denied".to_string()));
    let list = vec![
        cand("/h/.acme/.config.json", ConfigFile::Missing),
        cand("/h/.acme.json", text(r#"{"userID":7,"oauthAccount":"x"}"#)),
    ];
    assert_eq!(
        detect_user_id(&list),
        Err("Could not detect userId from /h/.acme/.config.json, /h/.acme.json".to_string())
    );
}

#[test]
fn parsed_config_gives_account_then_user_id() {
    let parsed = |a: Option<&str>, u: Option<&str>| ConfigContent::Parsed {
        account_uuid: a.map(str::to_string),
        user_id: u.map(str::to_string),
    };
    assert_eq!(config_user_id(&parsed(Some("a"), Some("u"))), Some("a".to_string()));
    assert_eq!(config_user_id(&parsed(Some(""), Some("u"))), Some("u".to_string()));
    assert_eq!(config_user_id(&parsed(None, Some(""))), None);
    assert_eq!(config_user_id(&ConfigContent::Unparsable), None);
}

#[test]
fn search_keeps_earliest_matches_in_order() {
    let assets = test_assets();
    let mut common = no_filters();
    common.rarity = Some("common".to_string());
    let params = |max: usize| SearchParams {
        user_id: "user-1".to_string(),
        total: 6,
        prefix: "lab-".to_string(),
        length: 15,
        filters: common.clone(),
        max_matches: max,
    };
    let salts = |max: usize| -> Vec<String> {
        search_salts(&assets, params(max)).into_iter().map(|m| m.salt).collect()
    };
    assert_eq!(salts(24), vec!["lab-00000000000", "lab-00000000001", "lab-00000000003"]);
    assert_eq!(salts(2), vec!["lab-00000000000", "lab-00000000001"]);
    assert_eq!(salts(0), vec!["lab-00000000000"]);
}
