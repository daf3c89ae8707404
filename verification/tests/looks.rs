//! Sound, themes, colours, shortcuts, preferences and paths.

use rustynesting::cancel::NestCancelFlag;
use rustynesting::chart::{last_index, unplaced_scale};
use rustynesting::effects::{dip, foreground, glyph_index, noise, tears, torn, Layer, GLYPH_COUNT, PARTS, SLICES, TRAIL};
use rustynesting::i18n::Lang;
use rustynesting::keys::{bindings, handle, hint, KeyCommands, Listening, Pressed, Windows};
use rustynesting::layers::{color_for_layer, color_in_theme, LayerColor, RESERVED_HIGH, RESERVED_LOW};
use rustynesting::nudge::{looks_free, step_length, steps_of, turns_in_circle, MoveKeys, Steps};
use rustynesting::bounds::Bounds;
use rustynesting::paths::{dir_from, place_of, KeptFile, IDENTIFIER};
use rustynesting::prefs::{Prefs, Scale};
use rustynesting::result::NestSnapshotDto;
use rustynesting::scalar::Scalar;
use rustynesting::sound::{envelope, finished, riff, samples, wav, BEEP, BEEPS, FADE, GAP, RATE};
use rustynesting::table::{closes_sheet, fits_any_sheet, Extent};
use rustynesting::state::Role;
use rustynesting::theme::{active, cjk_order, cjk_paths, CanvasStyle, FrameStyle, Platform, Theme};

fn s(value: f64) -> Scalar {
    Scalar { bits: value.to_bits() }
}

/// The tone of one beep: two kilohertz with a little of its third harmonic.
fn tone() -> Vec<i16> {
    (0..BEEP)
        .map(|i| {
            let t = i as f64 / f64::from(RATE);
            let turn = std::f64::consts::TAU * 2000.0 * t;
            let wave = turn.sin() + 0.18 * (turn * 3.0).sin();
            let loudness = envelope(i) as f64 / FADE as f64;
            (wave * loudness * 0.35 * f64::from(i16::MAX)) as i16
        })
        .collect()
}

#[test]
fn the_header_describes_the_payload() {
    let pcm = samples(&tone());
    let wav = riff(&pcm);

    assert_eq!(&wav[..4], b"RIFF");
    assert_eq!(&wav[8..12], b"WAVE");
    assert_eq!(&wav[36..40], b"data");
    assert_eq!(wav.len(), 44 + pcm.len() * 2, "the file must be the header plus every sample");

    let declared = u32::from_le_bytes(wav[40..44].try_into().unwrap()) as usize;
    assert_eq!(declared, pcm.len() * 2, "the data chunk lies about its own length");
    let riff_len = u32::from_le_bytes(wav[4..8].try_into().unwrap()) as usize;
    assert_eq!(riff_len, wav.len() - 8, "the RIFF length must exclude its own eight bytes");
}

#[test]
fn it_is_three_fading_beeps_and_not_one_long_one() {
    let pcm = samples(&tone());
    let beep = (0.13 * f64::from(RATE)) as usize;
    let gap = (0.09 * f64::from(RATE)) as usize;
    assert_eq!((beep, gap), (BEEP, GAP));

    assert_eq!(pcm.len(), BEEPS * (beep + gap));
    for n in 0..BEEPS {
        let start = n * (beep + gap);
        assert_eq!(pcm[start], 0, "beep {n} starts at full amplitude, which clicks");
        assert_eq!(pcm[start + beep - 1], 0, "beep {n} ends at full amplitude, which clicks");
        assert!(pcm[start..start + beep].iter().any(|s| s.abs() > 1000), "beep {n} is silent");
        assert!(pcm[start + beep..start + beep + gap].iter().all(|&s| s == 0), "the gap after beep {n} is not silent");
    }
}

#[test]
fn a_wav_file_holds_its_format_and_samples() {
    let file = riff(&vec![0, 1, -1, i16::MIN, i16::MAX]);
    assert_eq!(&file[12..16], b"fmt ");
    assert_eq!(u32::from_le_bytes(file[16..20].try_into().unwrap()), 16);
    assert_eq!(u16::from_le_bytes(file[20..22].try_into().unwrap()), 1);
    assert_eq!(u16::from_le_bytes(file[22..24].try_into().unwrap()), 1);
    assert_eq!(u32::from_le_bytes(file[24..28].try_into().unwrap()), 22_050);
    assert_eq!(u32::from_le_bytes(file[28..32].try_into().unwrap()), 44_100);
    assert_eq!(u16::from_le_bytes(file[32..34].try_into().unwrap()), 2);
    assert_eq!(u16::from_le_bytes(file[34..36].try_into().unwrap()), 16);
    let back: Vec<i16> = file[44..].chunks(2).map(|b| i16::from_le_bytes([b[0], b[1]])).collect();
    assert_eq!(back, vec![0, 1, -1, i16::MIN, i16::MAX]);
}

#[test]
fn the_chime_is_played_only_where_it_is_wanted_and_can_be() {
    let tone = tone();
    assert_eq!(finished(true, true, &tone), Some(wav(&tone)));
    assert!(finished(false, true, &tone).is_none());
    assert!(finished(true, false, &tone).is_none());
    assert_eq!((envelope(0), envelope(1), envelope(FADE), envelope(BEEP - 1)), (0, 1, FADE, 0));
}

/// Lays one band into a real frame for each layer that a theme asks for, and
/// counts the frame's shapes. How a layer is painted is the program's business;
/// which layers there are is the library's.
fn frame_shapes(run_effects: bool, theme: Theme) -> usize {
    let ctx = egui::Context::default();
    let screen = egui::Rect::from_min_size(egui::Pos2::ZERO, egui::vec2(1200.0, 800.0));
    let input = egui::RawInput { screen_rect: Some(screen), ..Default::default() };
    let output = ctx.run(input, |ctx| {
        let layers = foreground(active(rustynesting::theme::set(theme)));
        if !run_effects || layers.is_empty() {
            return;
        }
        egui::Area::new(egui::Id::new("theme-effects")).order(egui::Order::Foreground).interactable(false).fixed_pos(screen.min).show(
            ctx,
            |ui| {
                for (i, _) in layers.iter().enumerate() {
                    let band = egui::Rect::from_min_size(screen.min, egui::vec2(screen.width(), 3.0 + i as f32));
                    ui.painter().rect_filled(band, 0.0, egui::Color32::WHITE);
                }
            },
        );
    });
    output.shapes.len()
}

fn baseline() -> usize {
    frame_shapes(false, Theme::Oxide)
}

fn painted(theme: Theme) -> usize {
    frame_shapes(true, theme)
}

#[test]
fn the_still_worlds_allocate_no_overlay() {
    assert_eq!(painted(Theme::Oxide), baseline(), "OXIDE must paint no overlay");
    assert_eq!(painted(Theme::Kawaii), baseline(), "KAWAII carries its motion in animation_time, not an overlay");
}

#[test]
fn the_moving_worlds_paint_without_panicking() {
    for t in [Theme::Matrix, Theme::Terminator, Theme::Fallout, Theme::Cyberpunk] {
        assert!(painted(t) > baseline(), "{} should paint an overlay", t.label());
    }
    assert_eq!(foreground(Theme::Fallout), vec![Layer::Scanlines, Layer::Vignette, Layer::Flicker]);
}

#[test]
fn column_noise_is_stable_per_column_and_differs_between_them() {
    for c in 0..64u32 {
        assert_eq!(noise(c), noise(c), "noise must be a pure function of its seed");
    }
    let values: Vec<f32> = (0..64).map(|c| noise(c) as f32 / PARTS as f32).collect();
    let mut sorted = values.clone();
    sorted.sort_by(f32::total_cmp);
    sorted.dedup_by(|a, b| (*a - *b).abs() < 1e-6);
    assert!(sorted.len() > 55, "64 columns collapsed to {} distinct phases", sorted.len());
    assert!(values.iter().all(|v| (0.0..1.0).contains(v)), "noise must stay in 0..1 - it scales screen positions");
}

#[test]
fn noise_is_the_hash_it_is_said_to_be() {
    assert_eq!(noise(0), 0);
    let mut h = 7u32.wrapping_mul(0x9E37_79B9);
    h ^= h >> 15;
    h = h.wrapping_mul(0x85EB_CA6B);
    h ^= h >> 13;
    assert_eq!(noise(7), h % 10_000);
    assert_eq!(dip(0), Some(0));
    let dark = (1..200).find(|&b| noise(b) > 600).unwrap();
    assert_eq!(dip(dark), None);
    assert!(tears(0));
    assert_eq!(torn(5, 0), (noise(5), noise(5), noise(5)));
    assert_eq!(torn(5, SLICES - 1).1, noise(5 ^ (3 * 0x999)));
    assert_eq!(glyph_index(2, 3), (2 * 31 + 3 * 17) % GLYPH_COUNT);
    assert!((0..1000).all(|c| glyph_index(c, TRAIL) < GLYPH_COUNT));
}

#[test]
fn every_theme_is_active_once_it_is_set() {
    for (i, theme) in Theme::ALL.iter().enumerate() {
        assert_eq!(rustynesting::theme::set(*theme), i);
        assert_eq!(active(rustynesting::theme::set(*theme)), *theme);
        assert_eq!(active(i + 6), *theme);
    }
    assert_eq!(Theme::default().label(), "NESTOR");
    assert_eq!(Theme::Kawaii.frame(), FrameStyle::Soft);
    assert_eq!((FrameStyle::Soft.corner_radius(), FrameStyle::Hard.corner_radius()), (8, 0));
    assert_eq!((FrameStyle::Soft.stroke_width(), FrameStyle::Bezel.stroke_width()), (2, 1));
    assert_eq!(Theme::Fallout.fonts(), ("overpass", "overpass"));
}

#[test]
fn the_language_on_display_has_its_font_first() {
    assert_eq!(cjk_order(Lang::Ko), vec![Lang::Ko, Lang::Ja, Lang::Zh]);
    assert_eq!(cjk_order(Lang::En), vec![Lang::Ja, Lang::Ko, Lang::Zh]);
    assert_eq!(cjk_paths(Platform::Windows, Lang::Ko)[0], "C:\\Windows\\Fonts\\malgun.ttf");
    assert_eq!(cjk_paths(Platform::MacOs, Lang::Zh)[0], "/System/Library/Fonts/PingFang.ttc");
    assert_eq!(cjk_paths(Platform::Other, Lang::Ja), cjk_paths(Platform::Other, Lang::Zh));
}

#[test]
fn layer_colours_are_stable_and_differ_between_layers() {
    assert_eq!(color_for_layer("cut"), color_for_layer("cut"));
    assert_ne!(color_for_layer("cut"), color_for_layer("drilling"));
}

#[test]
fn known_operations_are_spelling_insensitive() {
    for names in [["cut", "CUT", "Outer Cut"], ["drill", "DRILLING", "holes"], ["etch", "ENGRAVE", "Score 1"]] {
        let first = color_for_layer(names[0]);
        for n in names {
            assert_eq!(color_for_layer(n), first, "{n} should match {}", names[0]);
        }
    }
}

#[test]
fn no_layer_colour_lands_in_the_chrome_hue_band() {
    let mut names: Vec<String> = (0..4000).map(|i| format!("layer{i}")).collect();
    names.extend(["cut", "drill", "etch", "0", "DEFAULT", "annotation", "text", "dim"].iter().map(|s| (*s).to_string()));
    for name in names {
        let c = color_for_layer(&name);
        let color: egui::Color32 =
            egui::ecolor::Hsva::new(c.hue as f32 / 360.0, c.saturation as f32 / 100.0, c.value as f32 / 100.0, 1.0).into();
        let hue = egui::ecolor::Hsva::from(color).h * 360.0;
        assert!(!(RESERVED_LOW as f32..=RESERVED_HIGH as f32).contains(&hue), "layer {name:?} drew at hue {hue}, inside the reserved band");
    }
}

#[test]
fn a_theme_keeps_its_own_hues_from_the_layers() {
    let mut names: Vec<String> = (0..4000).map(|i| format!("layer{i}")).collect();
    names.extend(["cut", "drill", "etch", "0", "DEFAULT", ""].iter().map(|s| (*s).to_string()));
    let mut coloured = 0;
    for theme in Theme::ALL {
        let CanvasStyle::Hue { reserved, also, saturation, value } = theme.canvas() else {
            assert!(color_in_theme("layer1", theme).is_none(), "{} is of one colour", theme.label());
            continue;
        };
        coloured += 1;
        for name in &names {
            let c = color_in_theme(name, theme).expect("this world colours by hue");
            assert!(c.hue < 360);
            for band in [Some(reserved), also].into_iter().flatten() {
                assert!(c.hue < band.low || band.high < c.hue, "{}: {name:?} drew at hue {}", theme.label(), c.hue);
            }
        }
        let plain = color_in_theme("layer1", theme).expect("this world colours by hue");
        assert_eq!((plain.saturation, plain.value), (saturation, value));
        assert_eq!(color_in_theme("Outer Cut", theme), Some(color_for_layer("cut")));
    }
    assert_eq!(coloured, 3);
    // 'A' is 65, and past the lower reserved hues of the last world by 50.
    assert_eq!(color_in_theme("A", Theme::Cyberpunk), Some(LayerColor { hue: 115, saturation: 85, value: 100 }));
    assert_eq!(color_in_theme("A", Theme::Kawaii), Some(LayerColor { hue: 65, saturation: 75, value: 62 }));
    for name in &names {
        assert_eq!(color_in_theme(name, Theme::Oxide), Some(color_for_layer(name)));
    }
}

#[test]
fn a_layer_without_a_known_word_is_coloured_by_its_bytes() {
    // 'A' is 65: past the reserved hues by 38.
    assert_eq!(color_for_layer("A"), LayerColor { hue: 103, saturation: 78, value: 100 });
    // The hash of "é" is 0xc3 * 31 + 0xa9.
    assert_eq!(color_for_layer("é").hue, (0xc3 * 31 + 0xa9) % 322 + 38);
    assert_eq!(color_for_layer("").hue, 0);
    assert_ne!(color_for_layer("a "), color_for_layer("a"), "only known words are looked for without blanks");
    assert_eq!(color_for_layer("profile").hue, 193);
    assert_eq!(color_for_layer("bore").hue, 142);
    assert_eq!(color_for_layer("raster").hue, 272);
}

fn nothing_open() -> Windows {
    Windows {
        help: false,
        settings: false,
        console: false,
        recover_question: false,
        reset_question: false,
        remove_question: false,
        unit_question: false,
    }
}

fn no_keys() -> Pressed {
    Pressed { run: false, undo: false, redo: false, console: false, config: false, help: false }
}

const QUIET: KeyCommands = KeyCommands { stop: false, start: false, undo: false, redo: false };

#[test]
fn shortcuts_act_on_what_is_on_screen() {
    let mut w = nothing_open();
    let all = Pressed { run: true, undo: true, redo: true, console: true, config: true, help: true };
    assert_eq!(handle(&mut w, all, false, true, false), KeyCommands { stop: true, start: false, undo: true, redo: true });
    assert!(w.help && w.settings && w.console);

    // A question is open now: only the key that closes the help is heard.
    assert_eq!(handle(&mut w, all, false, false, true), QUIET);
    assert!(!w.help && w.settings && w.console);

    let run = Pressed { run: true, ..no_keys() };
    assert_eq!(handle(&mut w, run, false, false, false), QUIET, "there is nothing to nest");
    assert!(handle(&mut w, run, false, false, true).start);
    assert_eq!(handle(&mut w, run, true, false, true), QUIET, "a field that is typed into owns every key");
    w.reset_question = true;
    assert_eq!(w.listening(false), Listening::Nothing);
}

#[test]
fn every_shortcut_is_listed() {
    let keys: Vec<&str> = bindings().iter().map(|b| b.keys).collect();
    assert_eq!(keys, vec!["Ctrl+R", "Ctrl+Z", "Ctrl+Y", "Ctrl+L", "Ctrl+,", "F1", "Esc"]);
    assert_eq!(bindings()[0].description_key, "help_keys_run");
    assert_eq!(hint("Start a nest run", "Ctrl+R"), "Start a nest run  (Ctrl+R)");
}

#[test]
fn preferences_start_plain() {
    let prefs = Prefs::default();
    assert_eq!((prefs.lang, prefs.scale, prefs.help_dismissed), (Lang::En, Scale::Normal, false));
    assert_eq!(Scale::ALL.map(|s| s.factor()), [4, 5, 6]);
    assert_eq!(Scale::ALL.map(|s| s.key()), ["scale_small", "scale_normal", "scale_large"]);
}

#[test]
fn kept_files_have_their_places() {
    assert_eq!(place_of(KeptFile::Config).name, "config.json");
    assert_eq!(place_of(KeptFile::BestResult).name, "best_result.json");
    assert_eq!(place_of(KeptFile::ShapeStore).base, "config");
    let log = place_of(KeptFile::Log);
    assert_eq!((log.base, log.sub, log.name), ("local data", Some("logs"), "rustynesting.log"));
    assert_eq!(dir_from(true, "config", None), Ok(vec![IDENTIFIER.to_string()]));
    assert_eq!(dir_from(true, "local data", Some("logs")), Ok(vec!["net.deepnest.rust".to_string(), "logs".to_string()]));
    assert_eq!(dir_from(false, "config", None), Err("this system has no config directory".to_string()));
}

fn snapshot(generation: usize, utilisation: f64, unplaced_count: usize) -> NestSnapshotDto {
    NestSnapshotDto {
        generation,
        placements: Vec::new(),
        fitness: s(0.0),
        utilisation: s(utilisation),
        unplaced_count,
        unplaced_ids: Vec::new(),
    }
}

#[test]
fn the_unplaced_series_is_omitted_when_nothing_was_ever_unplaced() {
    let history = vec![snapshot(1, 70.0, 0), snapshot(2, 72.0, 0)];
    assert!(unplaced_scale(&history).is_none());
}

#[test]
fn the_unplaced_series_scales_to_its_own_peak() {
    let history = vec![snapshot(1, 70.0, 4), snapshot(2, 72.0, 1)];
    assert_eq!(unplaced_scale(&history), Some(4));
    assert_eq!((last_index(0), last_index(1), last_index(5)), (0, 0, 4));
}

#[test]
fn only_one_run_at_a_time() {
    let mut flag = NestCancelFlag::default();
    flag.cancel();
    assert_eq!(flag.begin_run(), Ok(()));
    assert!(!flag.cancel_handle(), "a stop asked before the run is not meant for it");
    flag.cancel();
    assert_eq!(flag.begin_run(), Err("a nest is already running".to_string()));
    assert!(flag.cancel_handle(), "a refused run must not undo a pending stop");
    flag.end_run();
    assert_eq!(flag.begin_run(), Ok(()));
    assert!(!flag.cancel_handle());
}

fn extent(w: f64, h: f64) -> Extent {
    Extent { w: s(w), h: s(h) }
}

#[test]
fn the_too_large_reason_accounts_for_rotation() {
    let sheets = vec![extent(100.0, 50.0)];
    assert!(fits_any_sheet(extent(90.0, 40.0), &sheets), "fits outright");
    assert!(fits_any_sheet(extent(40.0, 90.0), &sheets), "fits once turned 90 degrees");
    assert!(!fits_any_sheet(extent(120.0, 40.0), &sheets), "genuinely too long");
    assert!(!fits_any_sheet(extent(10.0, 10.0), &Vec::new()), "no sheets at all");
}

#[test]
fn a_part_closes_its_sheet_from_the_threshold_on() {
    assert!(closes_sheet(Role::Part, s(90.0), s(100.0), s(90.0)));
    assert!(!closes_sheet(Role::Part, s(89.0), s(100.0), s(90.0)));
    assert!(!closes_sheet(Role::Sheet, s(95.0), s(100.0), s(90.0)));
    assert!(!closes_sheet(Role::Part, s(95.0), s(0.0), s(0.0)));
}

#[test]
fn keys_move_a_part_by_whole_steps() {
    let none = MoveKeys { left: false, right: false, up: false, down: false, turn: false, shift: false };
    assert_eq!(steps_of(MoveKeys { right: true, up: true, ..none }), Steps { x: 1, y: 1, turns: 0 });
    assert_eq!(steps_of(MoveKeys { left: true, right: true, down: true, ..none }), Steps { x: 0, y: -1, turns: 0 });
    assert_eq!(steps_of(MoveKeys { turn: true, ..none }).turns, 1);
    assert_eq!(steps_of(MoveKeys { turn: true, shift: true, ..none }).turns, -1);
    assert_eq!(step_length(Some(s(3.0))), s(3.0));
    assert_eq!(step_length(Some(s(0.0))), s(1.0));
    assert_eq!(step_length(None), s(1.0));
    assert_eq!(turns_in_circle(&None), 4);
}

fn boxed(minx: f64, miny: f64, maxx: f64, maxy: f64) -> Bounds {
    Bounds { minx: s(minx), miny: s(miny), maxx: s(maxx), maxy: s(maxy) }
}

#[test]
fn a_place_is_free_inside_the_sheet_and_beside_the_others() {
    let sheet = boxed(0.0, 0.0, 100.0, 100.0);
    let others = vec![boxed(0.0, 0.0, 20.0, 20.0)];
    assert!(looks_free(boxed(20.0, 0.0, 40.0, 20.0), sheet, &others), "touching is not overlapping");
    assert!(!looks_free(boxed(19.0, 0.0, 39.0, 20.0), sheet, &others));
    assert!(!looks_free(boxed(90.0, 0.0, 110.0, 20.0), sheet, &others));
}
