//! Keys and what they do.

use vstd::prelude::*;

use crate::text;
use crate::tui::app;
use crate::tui::app::{App, AppView};

verus! {

/// A key that was pressed.
#[derive(Clone, Copy, Debug, PartialEq, Eq, Structural)]
pub enum Key {
    Char(char),
    Up,
    Down,
    Left,
    Right,
    Enter,
    Esc,
    Backspace,
    Tab,
    /// Tab together with Shift.
    BackTab,
    /// Any key that does nothing.
    Other,
}

/// What the keys do that mean the same with the detail pane open or closed.
pub open spec fn common_effect(a: AppView, key: Key, now: u64) -> AppView {
    match key {
        Key::Char('t') => app::theme_cycled(a),
        Key::Char('a') => app::averages_toggled(a),
        Key::Char('+') | Key::Char('=') => app::window_increased(a),
        Key::Char('-') => app::window_decreased(a),
        Key::Char('>') => app::refresh_slowed(a),
        Key::Char('<') => app::refresh_sped(a),
        Key::Char('w') => app::window_opened(a),
        Key::Char('c') => app::picker_opened(a),
        Key::Char('r') => app::recording_toggled(a, now),
        Key::Tab => app::cycled(a, true),
        Key::BackTab => app::cycled(a, false),
        _ => a,
    }
}

/// What a key does in the table.
pub open spec fn normal_effect(a: AppView, key: Key, now: u64) -> AppView {
    match key {
        Key::Char('q') | Key::Esc => AppView { should_quit: true, ..a },
        Key::Up | Key::Char('k') => app::moved_up(a),
        Key::Down | Key::Char('j') => app::moved_down(a),
        Key::Left => app::scrolled_left(a),
        Key::Right => app::scrolled_right(a),
        Key::Enter => app::detail_toggled(a),
        _ => common_effect(a, key, now),
    }
}

/// What a key does with the detail pane open.
pub open spec fn detail_effect(a: AppView, key: Key, now: u64) -> AppView {
    match key {
        Key::Char('q') => AppView { should_quit: true, ..a },
        Key::Esc | Key::Enter => app::detail_toggled(a),
        Key::Up | Key::Char('k') => app::detail_up(a),
        Key::Down | Key::Char('j') => app::detail_down(a, a.detail_max_scroll),
        _ => common_effect(a, key, now),
    }
}

/// Whether a character is a decimal digit.
pub open spec fn is_digit(c: char) -> bool {
    '0' <= c && c <= '9'
}

/// What a key does in the window popup: digits are taken up to four bytes.
pub open spec fn window_input_effect(a: AppView, key: Key) -> AppView {
    match key {
        Key::Esc => app::window_cancelled(a),
        Key::Enter => app::window_confirmed(a),
        Key::Backspace => AppView {
            window_input_buf: if a.window_input_buf.len() > 0 {
                a.window_input_buf.drop_last()
            } else {
                a.window_input_buf
            },
            ..a
        },
        Key::Char(c) => if is_digit(c) && vstd::utf8::encode_utf8(a.window_input_buf).len() < 4 {
            AppView { window_input_buf: a.window_input_buf.push(c), ..a }
        } else {
            a
        },
        _ => a,
    }
}

/// What a key does in the column picker.
pub open spec fn picker_effect(a: AppView, key: Key) -> AppView {
    match key {
        Key::Esc | Key::Char('c') => app::picker_closed(a),
        Key::Up | Key::Char('k') => app::picker_up(a),
        Key::Down | Key::Char('j') => app::picker_down(a),
        Key::Char(' ') | Key::Enter => app::picker_toggled(a),
        _ => a,
    }
}

/// What a key does: the popups come first, then the help, then the detail
/// pane, then the table.
pub open spec fn key_effect(a: AppView, key: Key, now: u64) -> AppView {
    if a.show_window_input {
        window_input_effect(a, key)
    } else if a.show_column_picker {
        picker_effect(a, key)
    } else if key == Key::Char('h') {
        AppView { show_help: !a.show_help, ..a }
    } else if a.show_help {
        if key == Key::Esc {
            AppView { show_help: false, ..a }
        } else {
            a
        }
    } else if a.show_detail {
        detail_effect(a, key, now)
    } else {
        normal_effect(a, key, now)
    }
}

/// Whether a key ends a recording that has something to write.
pub open spec fn writes_trace(a: AppView, key: Key) -> bool {
    &&& key == Key::Char('r')
    &&& !a.show_window_input && !a.show_column_picker && !a.show_help
    &&& a.recorder is Some && a.recorder->0.samples.len() > 0
}

/// What a key asks to be written, if anything.
pub open spec fn trace_asked(asked: bool, wall_secs: u64, r: Option<String>) -> bool {
    match r {
        Some(path) => asked && path@ == app::trace_name(wall_secs),
        None => !asked,
    }
}

fn handle_common(app: &mut App, key: Key, now: u64, wall_secs: u64) -> (r: Option<String>)
    requires
        app::app_ok(old(app)@),
    ensures
        final(app)@ == common_effect(old(app)@, key, now),
        app::app_ok(final(app)@),
        trace_asked(
            key == Key::Char('r') && old(app)@.recorder is Some
                && old(app)@.recorder->0.samples.len() > 0,
            wall_secs,
            r,
        ),
{
    match key {
        Key::Char('t') => app.cycle_theme(),
        Key::Char('a') => app.toggle_rolling_avg(),
        Key::Char('+') | Key::Char('=') => app.increase_avg_window(),
        Key::Char('-') => app.decrease_avg_window(),
        Key::Char('>') => app.increase_refresh_interval(),
        Key::Char('<') => app.decrease_refresh_interval(),
        Key::Char('w') => app.open_window_input(),
        Key::Char('c') => app.open_column_picker(),
        Key::Char('r') => {
            return app.toggle_recording(now, wall_secs);
        },
        Key::Tab => app.cycle_tab(true),
        Key::BackTab => app.cycle_tab(false),
        _ => {},
    }
    None
}

/// Handles a key in the table.
pub fn handle_normal_mode(app: &mut App, key: Key, now: u64, wall_secs: u64) -> (r: Option<String>)
    requires
        app::app_ok(old(app)@),
    ensures
        final(app)@ == normal_effect(old(app)@, key, now),
        app::app_ok(final(app)@),
        trace_asked(
            key == Key::Char('r') && old(app)@.recorder is Some
                && old(app)@.recorder->0.samples.len() > 0,
            wall_secs,
            r,
        ),
{
    match key {
        Key::Char('q') | Key::Esc => app.should_quit = true,
        Key::Up | Key::Char('k') => app.move_up(),
        Key::Down | Key::Char('j') => app.move_down(),
        Key::Left => app.scroll_left(),
        Key::Right => app.scroll_right(),
        Key::Enter => app.toggle_detail(),
        _ => {
            return handle_common(app, key, now, wall_secs);
        },
    }
    None
}

/// Handles a key with the detail pane open.
pub fn handle_detail_mode(app: &mut App, key: Key, now: u64, wall_secs: u64) -> (r: Option<String>)
    requires
        app::app_ok(old(app)@),
    ensures
        final(app)@ == detail_effect(old(app)@, key, now),
        app::app_ok(final(app)@),
        trace_asked(
            key == Key::Char('r') && old(app)@.recorder is Some
                && old(app)@.recorder->0.samples.len() > 0,
            wall_secs,
            r,
        ),
{
    match key {
        Key::Char('q') => app.should_quit = true,
        Key::Esc | Key::Enter => app.toggle_detail(),
        Key::Up | Key::Char('k') => app.detail_scroll_up(),
        Key::Down | Key::Char('j') => app.detail_scroll_down(app.detail_max_scroll),
        _ => {
            return handle_common(app, key, now, wall_secs);
        },
    }
    None
}

/// Handles a key in the window popup.
pub fn handle_window_input(app: &mut App, key: Key)
    requires
        app::app_ok(old(app)@),
    ensures
        final(app)@ == window_input_effect(old(app)@, key),
        app::app_ok(final(app)@),
{
    match key {
        Key::Esc => app.cancel_window_input(),
        Key::Enter => app.confirm_window_input(),
        Key::Backspace => {
            let chars = text::chars_of(app.window_input_buf.as_str());
            let n: usize = chars.len();
            if n > 0 {
                app.window_input_buf = text::string_of(&chars.as_slice()[0..n - 1]);
                assert(app.window_input_buf@ =~= old(app)@.window_input_buf.drop_last());
            }
        },
        Key::Char(c) => {
            let n: u32 = c as u32;
            if 48 <= n && n <= 57 && app.window_input_buf.as_str().as_bytes().len() < 4 {
                app.window_input_buf.push(c);
            }
        },
        _ => {},
    }
}

/// Handles a key in the column picker.
pub fn handle_column_picker(app: &mut App, key: Key)
    requires
        app::app_ok(old(app)@),
    ensures
        final(app)@ == picker_effect(old(app)@, key),
        app::app_ok(final(app)@),
{
    match key {
        Key::Esc | Key::Char('c') => app.close_column_picker(),
        Key::Up | Key::Char('k') => app.column_picker_up(),
        Key::Down | Key::Char('j') => app.column_picker_down(),
        Key::Char(' ') | Key::Enter => app.column_picker_toggle(),
        _ => {},
    }
}

/// Handles a key. Returns the file that a trace is to be written to, when the
/// key ended a recording.
pub fn handle_key(app: &mut App, key: Key, now: u64, wall_secs: u64) -> (r: Option<String>)
    requires
        app::app_ok(old(app)@),
    ensures
        final(app)@ == key_effect(old(app)@, key, now),
        app::app_ok(final(app)@),
        trace_asked(writes_trace(old(app)@, key), wall_secs, r),
{
    // Window input popup takes priority
    if app.show_window_input {
        handle_window_input(app, key);
        return None;
    }
    // Column picker takes priority
    if app.show_column_picker {
        handle_column_picker(app, key);
        return None;
    }
    // Help toggle from any mode
    if key == Key::Char('h') {
        app.show_help = !app.show_help;
        return None;
    }
    // Dismiss help with Esc
    if app.show_help {
        if key == Key::Esc {
            app.show_help = false;
        }
        return None;
    }
    if app.show_detail {
        handle_detail_mode(app, key, now, wall_secs)
    } else {
        handle_normal_mode(app, key, now, wall_secs)
    }
}

/// Only `q` and, in the table, Esc end the session; with a popup or the help
/// open no key does.
pub proof fn law_quit_keys(a: AppView, key: Key, now: u64)
    requires
        !a.should_quit,
        key_effect(a, key, now).should_quit,
    ensures
        key == Key::Char('q') || key == Key::Esc && !a.show_detail,
        !a.show_window_input && !a.show_column_picker && !a.show_help,
{
}

/// The help opens and closes again with `h`, from any mode without a popup.
pub proof fn law_help_toggles(a: AppView, now: u64)
    requires
        !a.show_window_input,
        !a.show_column_picker,
    ensures
        key_effect(key_effect(a, Key::Char('h'), now), Key::Char('h'), now) == a,
{
}

/// No key changes what was sampled.
pub proof fn law_keys_leave_readings(a: AppView, key: Key, now: u64)
    ensures
        key_effect(a, key, now).throughputs == a.throughputs,
        key_effect(a, key, now).processes == a.processes,
        key_effect(a, key, now).history == a.history,
        key_effect(a, key, now).rolling_avg.samples == a.rolling_avg.samples,
        key_effect(a, key, now).seen_tabs == a.seen_tabs,
{
}

/// On the table each key does what it is for, whatever else is shown there.
pub proof fn law_table_keys(a: AppView, now: u64)
    requires
        !a.show_window_input && !a.show_column_picker && !a.show_help && !a.show_detail,
    ensures
        key_effect(a, Key::Char('q'), now) == (AppView { should_quit: true, ..a }),
        key_effect(a, Key::Esc, now) == (AppView { should_quit: true, ..a }),
        key_effect(a, Key::Up, now) == app::moved_up(a),
        key_effect(a, Key::Char('k'), now) == app::moved_up(a),
        key_effect(a, Key::Down, now) == app::moved_down(a),
        key_effect(a, Key::Char('j'), now) == app::moved_down(a),
        key_effect(a, Key::Left, now) == app::scrolled_left(a),
        key_effect(a, Key::Right, now) == app::scrolled_right(a),
        key_effect(a, Key::Enter, now).show_detail,
        key_effect(a, Key::Char('h'), now).show_help,
{
}

/// In the detail pane the arrows scroll, and Enter and Esc close it.
pub proof fn law_detail_keys(a: AppView, now: u64)
    requires
        !a.show_window_input && !a.show_column_picker && !a.show_help && a.show_detail,
    ensures
        key_effect(a, Key::Char('q'), now) == (AppView { should_quit: true, ..a }),
        !key_effect(a, Key::Esc, now).show_detail,
        !key_effect(a, Key::Enter, now).show_detail,
        key_effect(a, Key::Up, now) == app::detail_up(a),
        key_effect(a, Key::Char('k'), now) == app::detail_up(a),
        key_effect(a, Key::Down, now) == app::detail_down(a, a.detail_max_scroll),
        key_effect(a, Key::Char('j'), now) == app::detail_down(a, a.detail_max_scroll),
{
}

/// On the table and in the detail pane the same keys change theme, averages,
/// window, refresh, columns, recording and tab.
pub proof fn law_common_keys(a: AppView, now: u64)
    requires
        !a.show_window_input && !a.show_column_picker && !a.show_help,
    ensures
        key_effect(a, Key::Char('t'), now) == app::theme_cycled(a),
        key_effect(a, Key::Char('a'), now) == app::averages_toggled(a),
        key_effect(a, Key::Char('+'), now) == app::window_increased(a),
        key_effect(a, Key::Char('='), now) == app::window_increased(a),
        key_effect(a, Key::Char('-'), now) == app::window_decreased(a),
        key_effect(a, Key::Char('>'), now) == app::refresh_slowed(a),
        key_effect(a, Key::Char('<'), now) == app::refresh_sped(a),
        key_effect(a, Key::Char('w'), now).show_window_input,
        key_effect(a, Key::Char('c'), now) == app::picker_opened(a),
        key_effect(a, Key::Char('r'), now) == app::recording_toggled(a, now),
        key_effect(a, Key::Tab, now) == app::cycled(a, true),
        key_effect(a, Key::BackTab, now) == app::cycled(a, false),
{
}

/// While the window is typed, digits are added up to four, Backspace takes the
/// last away, Enter confirms and Esc cancels; other keys do nothing.
pub proof fn law_window_keys(a: AppView, key: Key, now: u64)
    requires
        a.show_window_input,
    ensures
        key_effect(a, Key::Esc, now) == app::window_cancelled(a),
        key_effect(a, Key::Enter, now) == app::window_confirmed(a),
        a.window_input_buf.len() > 0 ==> key_effect(a, Key::Backspace, now).window_input_buf
            == a.window_input_buf.drop_last(),
        key_effect(a, key, now).rolling_avg != a.rolling_avg ==> key == Key::Enter,
        key matches Key::Char(c) ==> {
            &&& '0' <= c <= '9' && vstd::utf8::encode_utf8(a.window_input_buf).len() < 4
                ==> key_effect(a, key, now).window_input_buf == a.window_input_buf.push(c)
            &&& '0' <= c <= '9' && vstd::utf8::encode_utf8(a.window_input_buf).len() >= 4
                ==> key_effect(a, key, now) == a
            &&& !('0' <= c <= '9') ==> key_effect(a, key, now) == a
        },
{
}

/// In the column picker the arrows move, Space and Enter choose, Esc and `c`
/// close, and other keys do nothing.
pub proof fn law_picker_keys(a: AppView, now: u64)
    requires
        a.show_column_picker && !a.show_window_input,
    ensures
        key_effect(a, Key::Up, now) == app::picker_up(a),
        key_effect(a, Key::Char('k'), now) == app::picker_up(a),
        key_effect(a, Key::Down, now) == app::picker_down(a),
        key_effect(a, Key::Char('j'), now) == app::picker_down(a),
        key_effect(a, Key::Char(' '), now) == app::picker_toggled(a),
        key_effect(a, Key::Enter, now) == app::picker_toggled(a),
        !key_effect(a, Key::Esc, now).show_column_picker,
        !key_effect(a, Key::Char('c'), now).show_column_picker,
        key_effect(a, Key::Char('q'), now) == a,
{
}

/// While the help is shown only `h` and Esc do anything: they close it.
pub proof fn law_help_keys(a: AppView, key: Key, now: u64)
    requires
        a.show_help && !a.show_window_input && !a.show_column_picker,
    ensures
        key == Key::Esc || key == Key::Char('h') ==> key_effect(a, key, now) == (AppView {
            show_help: false,
            ..a
        }),
        key != Key::Esc && key != Key::Char('h') ==> key_effect(a, key, now) == a,
{
}

/// A trace is written exactly where the recording key ends a recording that
/// holds samples, and never from a popup.
pub proof fn law_trace_is_written_on_request(a: AppView, key: Key)
    ensures
        writes_trace(a, key) ==> key == Key::Char('r'),
        a.show_window_input || a.show_column_picker || a.show_help ==> !writes_trace(a, key),
        a.recorder is None ==> !writes_trace(a, key),
        a.recorder matches Some(r) ==> {
            &&& r.samples.len() == 0 ==> !writes_trace(a, key)
            &&& r.samples.len() > 0 && key == Key::Char('r') && !a.show_window_input
                && !a.show_column_picker && !a.show_help ==> writes_trace(a, key)
        },
{
}

} // verus!
