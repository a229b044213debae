//! The application configuration and its defaults.
use vstd::prelude::*;

verus! {

broadcast use vstd::string::group_string_axioms;

/// An application launcher entry.
#[derive(Debug, Clone, Default)]
pub struct AppConfig {
    pub path: String,
    pub args: Vec<String>,
    pub work_dir: Option<String>,
}

/// The settings stored in config.toml.
#[derive(Debug, Clone)]
pub struct Config {
    pub bar_height: i32,
    pub split_ratio_x: i32,
    pub split_ratio_y: i32,
    pub exclude_titles: Vec<String>,
    pub exclude_processes: Vec<String>,
    pub window_x: i32,
    pub window_y: i32,
    pub window_bg_rgba: [u8; 4],
    pub button_fg_rgb: [u8; 3],
    pub button_bg_rgb: [u8; 3],
    pub button_highlight_fg_rgb: [u8; 3],
    pub button_highlight_bg_rgb: [u8; 3],
    pub flip_main: bool,
    pub min_window_height: i32,
    pub top_spacing: i32,
    pub bottom_spacing: i32,
    pub left_spacing: i32,
    pub right_spacing: i32,
    pub inner_spacing: i32,
    pub apps: Vec<AppConfig>,
}

/// The contents of a list of strings.
pub open spec fn strings_view(v: Seq<String>) -> Seq<Seq<char>> {
    v.map_values(|s: String| s@)
}

/// The title that is always excluded from tiling.
pub open spec fn popup_host() -> Seq<char> {
    seq!['P', 'o', 'p', 'u', 'p', 'H', 'o', 's', 't']
}

/// The process that is excluded from tiling by default (the taskbar itself).
pub open spec fn own_process() -> Seq<char> {
    seq!['t', 'i', 'l', 'e', '_', 'w', 'm', '.', 'e', 'x', 'e']
}

/// The documented default values.
pub open spec fn is_default_config(c: Config) -> bool {
    &&& c.bar_height == 40
    &&& c.split_ratio_x == 50
    &&& c.split_ratio_y == 50
    &&& c.exclude_titles@.len() == 0
    &&& strings_view(c.exclude_processes@) == seq![own_process()]
    &&& c.window_x == 100
    &&& c.window_y == 100
    &&& c.window_bg_rgba@ == seq![32u8, 32u8, 32u8, 255u8]
    &&& c.button_fg_rgb@ == seq![136u8, 136u8, 136u8]
    &&& c.button_bg_rgb@ == seq![32u8, 32u8, 32u8]
    &&& c.button_highlight_fg_rgb@ == seq![255u8, 255u8, 255u8]
    &&& c.button_highlight_bg_rgb@ == seq![255u8, 255u8, 255u8]
    &&& !c.flip_main
    &&& c.min_window_height == 220
    &&& c.top_spacing == 40
    &&& c.bottom_spacing == 10
    &&& c.left_spacing == 10
    &&& c.right_spacing == 10
    &&& c.inner_spacing == 10
    &&& c.apps@.len() == 0
}

impl Default for Config {
    fn default() -> (c: Config)
        ensures
            is_default_config(c),
    {
        let own = "tile_wm.exe".to_string();
        proof {
            reveal_strlit("tile_wm.exe");
        }
        let mut exclude_processes: Vec<String> = Vec::new();
        exclude_processes.push(own);
        assert(own@ =~= own_process());
        assert(strings_view(exclude_processes@)[0] == own_process());
        assert(strings_view(exclude_processes@) =~= seq![own_process()]);
        Config {
            bar_height: 40,
            split_ratio_x: 50,
            split_ratio_y: 50,
            exclude_titles: Vec::new(),
            exclude_processes,
            window_x: 100,
            window_y: 100,
            window_bg_rgba: [32, 32, 32, 255],
            button_fg_rgb: [136, 136, 136],
            button_bg_rgb: [32, 32, 32],
            button_highlight_fg_rgb: [255, 255, 255],
            button_highlight_bg_rgb: [255, 255, 255],
            flip_main: false,
            min_window_height: 220,
            top_spacing: 40,
            bottom_spacing: 10,
            left_spacing: 10,
            right_spacing: 10,
            inner_spacing: 10,
            apps: Vec::new(),
        }
    }
}

/// The exclusion titles with "PopupHost" added when it is missing.
pub open spec fn with_popup_host(titles: Seq<Seq<char>>) -> Seq<Seq<char>> {
    if titles.contains(popup_host()) {
        titles
    } else {
        titles.push(popup_host())
    }
}

impl Config {
    /// Returns exclude_titles with "PopupHost" always included.
    /// Even if the user's config.toml does not contain "PopupHost", it is
    /// treated as excluded at runtime.
    pub fn effective_exclude_titles(&self) -> (titles: Vec<String>)
        ensures
            strings_view(titles@) == with_popup_host(strings_view(self.exclude_titles@)),
    {
        let popup = "PopupHost".to_string();
        proof {
            reveal_strlit("PopupHost");
            assert(popup@ == popup_host());
        }
        let ghost src = strings_view(self.exclude_titles@);
        let mut titles: Vec<String> = Vec::new();
        let mut found = false;
        let n = self.exclude_titles.len();
        let mut i: usize = 0;
        while i < n
            invariant
                n == self.exclude_titles@.len(),
                src == strings_view(self.exclude_titles@),
                popup@ == popup_host(),
                0 <= i <= n,
                strings_view(titles@) == src.take(i as int),
                found == src.take(i as int).contains(popup_host()),
            decreases n - i,
        {
            let t = self.exclude_titles[i].clone();
            let is_popup = t == popup;
            proof {
                assert(src.take(i + 1) =~= src.take(i as int).push(src[i as int]));
                assert(src[i as int] == t@);
                lemma_contains_push(src.take(i as int), popup_host(), t@);
            }
            titles.push(t);
            found = found || is_popup;
            i = i + 1;
            assert(strings_view(titles@) =~= src.take(i as int));
        }
        assert(src.take(n as int) =~= src);
        if !found {
            titles.push(popup);
            assert(strings_view(titles@) =~= src.push(popup_host()));
        }
        titles
    }
}

proof fn lemma_contains_push<A>(s: Seq<A>, x: A, y: A)
    ensures
        s.push(y).contains(x) == (s.contains(x) || y == x),
{
    let t = s.push(y);
    if s.contains(x) {
        let j = choose|j: int| 0 <= j < s.len() && s[j] == x;
        assert(t[j] == x);
    }
    if y == x {
        assert(t[s.len() as int] == x);
    }
    if t.contains(x) {
        let j = choose|j: int| 0 <= j < t.len() && t[j] == x;
        if j < s.len() {
            assert(s[j] == x);
        }
    }
}

/// The settings the settings UI edits.
pub struct ConfigUpdate {
    pub bar_height: i32,
    pub split_ratio_x: i32,
    pub split_ratio_y: i32,
    pub exclude_titles: Vec<String>,
    pub exclude_processes: Vec<String>,
    pub window_x: i32,
    pub window_y: i32,
    pub window_bg_rgba: [u8; 4],
    pub flip_main: bool,
}

impl Config {
    /// Take over the edited settings. Returns whether the bar height changed,
    /// in which case the taskbar window must be resized.
    pub fn apply_update(&mut self, u: ConfigUpdate) -> (resize: bool)
        ensures
            resize == (u.bar_height != old(self).bar_height),
            final(self).bar_height == u.bar_height,
            final(self).split_ratio_x == u.split_ratio_x,
            final(self).split_ratio_y == u.split_ratio_y,
            final(self).exclude_titles@ == u.exclude_titles@,
            final(self).exclude_processes@ == u.exclude_processes@,
            final(self).window_x == u.window_x,
            final(self).window_y == u.window_y,
            final(self).window_bg_rgba@ == u.window_bg_rgba@,
            final(self).flip_main == u.flip_main,
            final(self).button_fg_rgb@ == old(self).button_fg_rgb@,
            final(self).button_bg_rgb@ == old(self).button_bg_rgb@,
            final(self).button_highlight_fg_rgb@ == old(self).button_highlight_fg_rgb@,
            final(self).button_highlight_bg_rgb@ == old(self).button_highlight_bg_rgb@,
            final(self).min_window_height == old(self).min_window_height,
            final(self).top_spacing == old(self).top_spacing,
            final(self).bottom_spacing == old(self).bottom_spacing,
            final(self).left_spacing == old(self).left_spacing,
            final(self).right_spacing == old(self).right_spacing,
            final(self).inner_spacing == old(self).inner_spacing,
            final(self).apps@ == old(self).apps@,
    {
        let old_bar_height = self.bar_height;
        self.bar_height = u.bar_height;
        self.split_ratio_x = u.split_ratio_x;
        self.split_ratio_y = u.split_ratio_y;
        self.exclude_titles = u.exclude_titles;
        self.exclude_processes = u.exclude_processes;
        self.window_x = u.window_x;
        self.window_y = u.window_y;
        self.window_bg_rgba = u.window_bg_rgba;
        self.flip_main = u.flip_main;
        u.bar_height != old_bar_height
    }
}

/// Adding "PopupHost" keeps the configured titles in front, always yields a
/// list containing it, and doing it again changes nothing.
pub proof fn lemma_popup_host_always_excluded(titles: Seq<Seq<char>>)
    ensures
        with_popup_host(titles).contains(popup_host()),
        titles.is_prefix_of(with_popup_host(titles)),
        with_popup_host(with_popup_host(titles)) == with_popup_host(titles),
        with_popup_host(titles).len() <= titles.len() + 1,
{
    if !titles.contains(popup_host()) {
        let t2 = titles.push(popup_host());
        assert(t2[titles.len() as int] == popup_host());
        assert(titles.is_prefix_of(t2)) by {
            assert(t2.subrange(0, titles.len() as int) =~= titles);
        }
    } else {
        assert(titles.subrange(0, titles.len() as int) =~= titles);
    }
}

} // verus!
