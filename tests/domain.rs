use std::sync::Arc;

use sulove::achievements::{Achievement, AchievementManager};
use sulove::config::{ConfigError, ConfigurationManager};
use sulove::emulator::{get_unix_timestamp, Emulator, GameEnvironment};
use sulove::server::BaseServer;
use sulove::util::{Rotation, SqlExceptionFilter};

fn achievement(id: i32, category: &str) -> Achievement {
    Achievement::new(id, format!("ACH_{}", id), "desc".to_string(), category.to_string(), 1, 10, 20, 5)
}

#[test]
fn achievement_getters() {
    let a = achievement(3, "social");
    assert_eq!(a.id(), 3);
    assert_eq!(a.name(), "ACH_3");
    assert_eq!(a.description(), "desc");
    assert_eq!(a.category(), "social");
    assert_eq!(a.level(), 1);
    assert_eq!(a.reward_pixels(), 10);
    assert_eq!(a.reward_points(), 20);
    assert_eq!(a.progress_needed(), 5);
}

#[test]
fn achievement_lookups() {
    let mut m = AchievementManager::new();
    assert!(m.load().is_ok());
    m.add(achievement(1, "games"));
    m.add(achievement(2, "social"));
    m.add(achievement(3, "games"));
    assert_eq!(m.get_achievement_by_id(2).unwrap().category(), "social");
    assert!(m.get_achievement_by_id(9).is_none());
    let games: Vec<i32> = m.get_achievements_by_category("games").iter().map(|a| a.id()).collect();
    assert_eq!(games, vec![1, 3]);
    assert!(m.get_achievements_by_category("none").is_empty());
}

#[test]
fn rotation_values() {
    for v in 0..8 {
        assert_eq!(Rotation::from_value(v).unwrap().to_value(), v);
    }
    assert_eq!(Rotation::from_value(2), Some(Rotation::East));
    assert_eq!(Rotation::from_value(8), None);
    assert_eq!(Rotation::from_value(-1), None);
}

#[test]
fn config_parses_text() {
    let text = "# comment\n[section]\n game.host = 127.0.0.1 \nport=30000\nflag = Yes\nbad line\nempty=\nnum=abc\r\n";
    let c = ConfigurationManager::new("config.ini", text);
    assert_eq!(c.config_path(), "config.ini");
    assert_eq!(c.get_string("game.host").unwrap(), "127.0.0.1");
    assert_eq!(c.get_int("port"), Ok(30000));
    assert_eq!(c.get_bool("flag"), Ok(true));
    assert_eq!(c.get_string("empty").unwrap(), "");
    assert_eq!(c.get_int("num"), Err(ConfigError::NotAnInteger));
    assert_eq!(c.get_bool("num"), Err(ConfigError::NotABoolean));
    assert_eq!(c.get_string("bad line"), Err(ConfigError::KeyNotFound));
    assert_eq!(c.get_int("missing"), Err(ConfigError::KeyNotFound));
}

#[test]
fn config_set_overrides() {
    let mut c = ConfigurationManager::new("x", "a=1\na=2");
    assert_eq!(c.get_int("a"), Ok(2));
    c.set("a", "-7").unwrap();
    assert_eq!(c.get_int("a"), Ok(-7));
    c.set("b", "OFF").unwrap();
    assert_eq!(c.get_bool("b"), Ok(false));
    c.set("c", "2147483648").unwrap();
    assert_eq!(c.get_int("c"), Err(ConfigError::NotAnInteger));
}

#[test]
fn base_server_fields() {
    let s = BaseServer::new("0.0.0.0".to_string(), 30000);
    assert_eq!(s.get_host(), "0.0.0.0");
    assert_eq!(s.get_port(), 30000);
}

#[test]
fn emulator_flags() {
    let config = Arc::new(ConfigurationManager::new("x", "k=v"));
    let env = Arc::new(GameEnvironment::new());
    assert!(env.load().is_ok());
    let mut emu = Emulator::new(config, env);
    assert!(!emu.is_ready());
    emu.set_ready();
    assert!(emu.is_ready());
    assert!(!emu.is_shutting_down());
    assert!(emu.dispose());
    assert!(!emu.dispose());
    assert!(emu.is_shutting_down());
    assert_eq!(emu.get_config().get_string("k").unwrap(), "v");
    assert!(get_unix_timestamp() > 1_600_000_000);
}

#[test]
fn sql_filter_logs_everything() {
    assert!(SqlExceptionFilter::new().filter("anything"));
}

use std::collections::HashSet;
use sulove::figure::FigureUtil;
use sulove::util::PacketUtils;

#[test]
fn figure_bits_in_order() {
    let bits = FigureUtil::get_figure_bits("hr-115-42.hd-195-19.ch-3030-82.hr-100");
    let pairs: Vec<(&str, &str)> = bits.iter().map(|(k, v)| (k.as_str(), v.as_str())).collect();
    assert_eq!(pairs, vec![("hr", "100"), ("hd", "195"), ("ch", "3030")]);
    let bits = FigureUtil::get_figure_bits("hd");
    assert_eq!(bits, vec![("hd".to_string(), String::new())]);
}

#[test]
fn figure_merges() {
    assert_eq!(
        FigureUtil::merge_figures("hr-115-42.hd-195-19", "ch-3030-82.lg-275-82"),
        "hr-115.hd-195.ch-3030.lg-275"
    );
    let limit = vec!["hr".to_string()];
    assert_eq!(
        FigureUtil::merge_figures_with_limit_1("hr-115-42.hd-195-19", "ch-3030-82", Some(&limit)),
        "hr-115.ch-3030"
    );
    let limit2 = vec!["lg".to_string()];
    assert_eq!(
        FigureUtil::merge_figures_with_limits("hr-1.hd-2", "ch-3.lg-4", Some(&limit), Some(&limit2)),
        "hr-1.lg-4"
    );
    let none: Vec<String> = Vec::new();
    assert_eq!(FigureUtil::merge_figures_with_limits("hr-1", "ch-3", Some(&none), Some(&none)), "");
}

#[test]
fn figure_blacklist() {
    let mut black = HashSet::new();
    black.insert(195);
    assert!(FigureUtil::has_blacklisted_clothing("hr-115-42.hd-195-19", &black));
    assert!(!FigureUtil::has_blacklisted_clothing("hr-115-42.hd-x-19", &black));
    assert!(!FigureUtil::has_blacklisted_clothing("hd", &black));
}

#[test]
fn packet_dump_escapes_controls() {
    assert_eq!(PacketUtils::format_packet(b"ab\x01c\x1f\x00"), "ab[1]c[31][0]");
    assert_eq!(PacketUtils::format_packet(b"plain"), "plain");
}
