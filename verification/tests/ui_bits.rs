use plottypus::snapshot::{FanMetric, MemorySnapshot, SocInfo, Thermal};
use plottypus::ui::braille::braille_cell;
use plottypus::ui::chrome::{axis_gutter, graph_plan, tick_row, Axis};
use plottypus::ui::layout::{Panel, Rect};
use plottypus::config::{Config, ProcSort};
use plottypus::ui::widgets::{
    centered, fan_speeds_width, freq_label, help_lines, identity_lines, is_section, on_off, settings_lines,
    spec_items, thermal_word, Focus, ProcView,
};

#[test]
fn bit_pattern_empty() {
    assert_eq!(braille_cell(0, 0), '\u{2800}');
}

#[test]
fn bit_pattern_full() {
    assert_eq!(braille_cell(4, 4), '⣿');
    assert_eq!(braille_cell(4, 4), '\u{28ff}');
}

#[test]
fn bit_pattern_left_one() {
    assert_eq!(braille_cell(1, 0), '⡀');
    assert_eq!(braille_cell(1, 0), '\u{2840}');
}

#[test]
fn bit_pattern_right_full() {
    assert_eq!(braille_cell(0, 4), '⢸');
    assert_eq!(braille_cell(0, 4), '\u{28b8}');
}

#[test]
fn levels_above_four_fill_the_column() {
    assert_eq!(braille_cell(9, 200), braille_cell(4, 4));
    assert_eq!(braille_cell(2, 3), '\u{28f4}');
}

#[test]
fn gutter_is_bits_only() {
    assert_eq!(axis_gutter(Axis::Percent, 40, 8), 0);
    assert_eq!(axis_gutter(Axis::Celsius, 40, 8), 0);
    assert_eq!(axis_gutter(Axis::Number, 40, 8), 0);
    assert_eq!(axis_gutter(Axis::Blank, 40, 8), 0);
    assert_eq!(axis_gutter(Axis::Bits, 40, 8), 7);
    assert_eq!(axis_gutter(Axis::Bytes, 40, 8), 7);
    assert_eq!(axis_gutter(Axis::Bits, 10, 8), 0);
}

#[test]
fn centered_stays_inside() {
    let r = centered(Rect::new(0, 0, 20, 10), 40, 20);
    assert_eq!(r, Rect::new(0, 0, 20, 10));
    assert_eq!(centered(Rect::new(2, 2, 20, 10), 10, 4), Rect::new(7, 5, 10, 4));
}

#[test]
fn settings_sections_are_recognised() {
    assert!(is_section(" sampling"));
    assert!(is_section(" panes"));
    assert!(is_section(" processes"));
    assert!(!is_section("1  interval"));
    assert_eq!(on_off(true), "on");
    assert_eq!(on_off(false), "off");
}

#[test]
fn specs_only_nonzero() {
    let mut mem = MemorySnapshot::default();
    assert!(spec_items(&mem).is_empty());
    mem.wired_bytes = 8 * 1024 * 1024 * 1024;
    mem.swap_used_bytes = 512 * 1024 * 1024;
    mem.swap_total_bytes = 2 * 1024 * 1024 * 1024;
    let items = spec_items(&mem);
    assert_eq!(items, ["wired 8.0G", "swap 512M / 2.0G"]);
}

#[test]
fn clock_labels() {
    assert_eq!(freq_label(396), "396MHz");
    assert_eq!(freq_label(1398), "1.4GHz");
    assert_eq!(freq_label(1000), "1.0GHz");
    assert_eq!(freq_label(1250), format!("{:.1}GHz", 1250f64 / 1000.0));
    for mhz in [1000u32, 1049, 1050, 1051, 1150, 1250, 1350, 2450, 3999] {
        assert_eq!(freq_label(mhz), format!("{:.1}GHz", f64::from(mhz) / 1000.0));
    }
}

#[test]
fn fan_line_width_counts_every_speed() {
    let fans = vec![
        FanMetric { name: String::from("a"), rpm: 1200, max_rpm: 6000 },
        FanMetric { name: String::from("b"), rpm: 980, max_rpm: 6000 },
    ];
    assert_eq!(fan_speeds_width(&fans), ("1200 rpm  980 rpm".chars().count() + 1) as u16);
    assert_eq!(fan_speeds_width(&Vec::new()), 0);
}

#[test]
fn thermal_words_and_focus() {
    assert_eq!(thermal_word(Thermal::Serious), "serious");
    assert_eq!(Focus::default(), Focus::Processes);
    assert_eq!(Focus::Search.panel(), Panel::Processes);
    assert_eq!(Focus::from_panel(Panel::Gpu), Focus::Gpu);
    let view = ProcView::default();
    assert_eq!(view.selected, 0);
    assert!(view.filter.is_empty());
}

fn chip(name: &str, e: u8, p: u8, s: u8, gpu: u8) -> SocInfo {
    SocInfo {
        name: String::from(name),
        e_cores: e,
        p_cores: p,
        s_cores: s,
        gpu_cores: gpu,
        memory_bytes: 0,
    }
}

#[test]
fn identity_lists_the_chip_and_its_core_mix() {
    let soc = chip("M4 Pro", 4, 10, 0, 16);
    assert_eq!(identity_lines(Panel::Cpu, &soc, false, None, None), ["M4 Pro", "4E + 10P"]);
    let odd = chip("unknown", 0, 0, 2, 0);
    assert_eq!(identity_lines(Panel::Cpu, &odd, false, None, None), ["2S"]);
    assert!(identity_lines(Panel::Cpu, &chip("", 0, 0, 0, 0), false, None, None).is_empty());
}

#[test]
fn gpu_identity_shows_clock_engine_and_cores() {
    let soc = chip("M4 Pro", 4, 10, 0, 16);
    assert_eq!(
        identity_lines(Panel::Gpu, &soc, true, Some(1398), Some(String::from("0.4W"))),
        ["M4 Pro", "1.4GHz", "ane 0.4W", "16c"]
    );
    assert_eq!(identity_lines(Panel::Gpu, &soc, true, Some(461), None), ["M4 Pro", "461MHz", "16c"]);
    assert_eq!(identity_lines(Panel::Gpu, &soc, false, Some(461), None), ["M4 Pro", "16c"]);
    assert_eq!(identity_lines(Panel::Mem, &soc, true, Some(461), None), ["M4 Pro"]);
}

#[test]
fn help_lists_button_and_enter_expand() {
    let joined = help_lines().join("\n");
    assert!(joined.contains("enter                    expand focused box"));
    assert!(joined.contains("click ↗                  expand that box"));
    assert!(joined.contains("click a box              focus it"));
    assert!(!joined.contains("click a box              expand"));
    assert!(!joined.contains("fullscreen"));
}

#[test]
fn settings_has_sampling_panes_processes() {
    let lines = settings_lines(&Config::default(), false);
    let joined = lines.join("\n");
    let sampling = joined.find("sampling");
    let panes = joined.find("panes");
    let processes = joined.find("processes");
    assert!(sampling.is_some(), "{joined}");
    assert!(panes.is_some(), "{joined}");
    assert!(processes.is_some(), "{joined}");
    assert!(sampling < panes && panes < processes, "{joined}");
    assert!(joined.contains("interval"), "{joined}");
    assert!(joined.contains("[ / ]"), "{joined}");
    assert!(joined.contains("gpu pane"), "{joined}");
    assert!(joined.contains("proc sort"), "{joined}");
    assert!(is_section(" sampling"));
    assert!(is_section(" panes"));
    assert!(is_section(" processes"));
    assert!(!is_section("1  interval"));
}

#[test]
fn settings_lines_show_each_setting() {
    let mut c = Config::default();
    c.interval = 500;
    c.show_gpu = false;
    c.proc_sort = ProcSort::Pid;
    let lines = settings_lines(&c, true);
    assert_eq!(lines.len(), 17);
    assert_eq!(lines[1], "1  interval     500 ms   [ / ]  0.25 / 0.5 / 1 s");
    assert_eq!(lines[2], "");
    assert_eq!(lines[4], "2  gpu pane     off");
    assert_eq!(lines[11], "7  proc sort    pid");
    assert_eq!(lines[13], "9  proc tree    on");
    assert_eq!(lines[16], " esc  close");
    assert_eq!(help_lines().len(), 16);
    assert_eq!(help_lines()[15], "q                        quit");
}

#[test]
fn celsius_hint_replaces_the_tick_stack() {
    // A 28x6 temperature graph on a fixed 0..100 scale: the plot owns the
    // full width (no tick gutter) and the top hint sits in its corner.
    let p = graph_plan(Rect::new(0, 0, 28, 6), Axis::Celsius, false, false);
    assert_eq!(p.gutter, 0);
    assert_eq!(p.plot, Rect::new(0, 0, 28, 6));
    assert!(p.drawn && !p.spark);
    assert_eq!(p.top_hint, Some(Rect::new(0, 0, 5, 1)));
    assert_eq!(p.bottom_hint, None);
    assert_eq!(p.ticks, 0);
}

#[test]
fn percent_graphs_carry_no_axis_ink() {
    // A fixed 0..1 percentage graph gets neither gutter, ticks nor hints.
    let p = graph_plan(Rect::new(0, 0, 28, 6), Axis::Percent, false, false);
    assert_eq!(p.gutter, 0);
    assert_eq!(p.top_hint, None);
    assert_eq!(p.bottom_hint, None);
    assert_eq!(p.ticks, 0);
}

#[test]
fn auto_percent_prints_the_ceiling() {
    let p = graph_plan(Rect::new(0, 0, 28, 6), Axis::Percent, true, false);
    assert_eq!(p.top_hint, Some(Rect::new(0, 0, 5, 1)));
}

#[test]
fn rate_graphs_keep_a_tick_gutter() {
    let p = graph_plan(Rect::new(2, 3, 40, 8), Axis::Bits, true, false);
    assert_eq!(p.gutter, 7);
    assert_eq!(p.plot, Rect::new(9, 3, 33, 8));
    assert_eq!(p.ticks, 5);
    assert_eq!(tick_row(Rect::new(2, 3, 40, 8), 5, 0), (4, 3));
    assert_eq!(tick_row(Rect::new(2, 3, 40, 8), 5, 1), (3, 5));
    assert_eq!(tick_row(Rect::new(2, 3, 40, 8), 5, 2), (2, 7));
    assert_eq!(tick_row(Rect::new(2, 3, 40, 8), 5, 3), (1, 9));
    assert_eq!(tick_row(Rect::new(2, 3, 40, 8), 5, 4), (0, 10));
    let short = graph_plan(Rect::new(0, 0, 40, 3), Axis::Bytes, true, false);
    assert_eq!(short.ticks, 3);
    assert_eq!(tick_row(Rect::new(0, 0, 40, 3), 3, 1), (2, 1));
    let two = graph_plan(Rect::new(0, 0, 40, 2), Axis::Bytes, true, false);
    assert_eq!(two.ticks, 1);
}

#[test]
fn one_row_graphs_fall_back_to_a_spark() {
    let p = graph_plan(Rect::new(0, 0, 30, 1), Axis::Bits, true, true);
    assert_eq!(p.gutter, 0);
    assert!(p.drawn && p.spark);
    assert_eq!(p.top_hint, None);
    assert_eq!(p.ticks, 0);
    assert!(!graph_plan(Rect::new(0, 0, 0, 5), Axis::Celsius, true, true).drawn);
    assert!(!graph_plan(Rect::new(0, 0, 5, 0), Axis::Celsius, true, true).drawn);
}

#[test]
fn band_floor_gets_a_bottom_hint() {
    let p = graph_plan(Rect::new(0, 0, 28, 6), Axis::Celsius, true, true);
    assert_eq!(p.bottom_hint, Some(Rect::new(0, 5, 5, 1)));
    let low = graph_plan(Rect::new(0, 0, 28, 3), Axis::Celsius, true, true);
    assert!(low.top_hint.is_some() && low.bottom_hint.is_none());
    let narrow = graph_plan(Rect::new(0, 0, 9, 6), Axis::Celsius, true, true);
    assert!(narrow.top_hint.is_none() && narrow.bottom_hint.is_none());
}

#[test]
fn braille_levels_only_add_dots() {
    for l in 0u8..=6 {
        for r in 0u8..=6 {
            let bits = braille_cell(l, r) as u32 - 0x2800;
            let left = braille_cell(l, 0) as u32 - 0x2800;
            let right = braille_cell(0, r) as u32 - 0x2800;
            assert!(bits <= 0xFF);
            assert_eq!(bits, left | right);
            assert_eq!(left & right, 0);
            assert_eq!(bits.count_ones(), u32::from(l.min(4) + r.min(4)));
            if l < 6 {
                let up = braille_cell(l + 1, 0) as u32 - 0x2800;
                assert_eq!(left & !up, 0);
            }
        }
    }
}
