//! The configuration: target frame rates and enabled features, read from an
//! ini-style file and from command line arguments.
use vstd::prelude::*;

use crate::features::{Features, MENU_FPS_BIT, GAME_FPS_BIT, MOTION_SMOOTHING_BIT, ALL_BITS};
use crate::text::{
    chars_of, end_white, find, find_char, parse_bool, parse_bool_at, skip_white, split_once, trim,
    trim_end, trim_start, eq_text, is_white, unicode_white_space, law_white_is_unicode_white_space,
    law_trim_drops_added_white, lemma_find_after, lemma_find_absent, lemma_first_non_white_at,
};
use crate::util::{parse_ratio, Ratio};

verus! {

/// The settings: the frame rate to render at (`0` picks the monitor's), the
/// frame rate while the window is in the background (`0` keeps the normal
/// rate), and the enabled features.
#[derive(Clone, Copy, Debug)]
pub struct Config {
    pub fps: Ratio,
    pub bg_fps: Ratio,
    pub features: Features,
}

/// The settings as plain values.
#[derive(Clone, Copy, PartialEq, Eq, Structural, Debug)]
pub struct ConfigView {
    pub fps: Ratio,
    pub bg_fps: Ratio,
    pub features: u32,
}

impl View for Config {
    type V = ConfigView;

    open spec fn view(&self) -> ConfigView {
        ConfigView { fps: self.fps, bg_fps: self.bg_fps, features: self.features.view_bits() }
    }
}

/// What is wrong with a setting.
#[derive(Clone, Copy, PartialEq, Eq, Structural, Debug)]
pub enum IssueKind {
    /// The value could not be read.
    UnknownValue,
    /// The key is not a setting.
    UnknownKey,
    /// The line has no `=`.
    MissingValue,
}

/// A setting that was not applied: its line (or argument) number, counted
/// from 1, and why.
#[derive(Clone, Copy, PartialEq, Eq, Structural, Debug)]
pub struct ConfigIssue {
    pub position: usize,
    pub kind: IssueKind,
}

/// `l` without a final carriage return.
pub open spec fn strip_cr(l: Seq<char>) -> Seq<char> {
    if l.len() > 0 && l.last() == '\r' {
        l.drop_last()
    } else {
        l
    }
}

/// The lines of `text`, as `str::lines` gives them: split at each `\n`, a
/// `\r` before the `\n` removed, no line after a final `\n`.
pub open spec fn text_lines(text: Seq<char>) -> Seq<Seq<char>>
    decreases text.len(),
{
    if text.len() == 0 {
        seq![]
    } else {
        match find_char(text, '\n') {
            Some(i) => if 0 <= i < text.len() {
                seq![strip_cr(text.take(i))] + text_lines(text.skip(i + 1))
            } else {
                seq![]
            },
            None => seq![text],
        }
    }
}

/// The features after `set_relaxed(bit, enable)`: enabling adds the bit,
/// disabling leaves the set as it is.
pub open spec fn set_feature(features: u32, bit: u32, enable: bool) -> u32 {
    if enable {
        features | bit
    } else {
        features
    }
}

/// One issue at `position`.
pub open spec fn one_issue(position: nat, kind: IssueKind) -> Seq<ConfigIssue> {
    seq![ConfigIssue { position: position as usize, kind }]
}

/// Applies the ratio setting `v` with `apply`, or reports it unreadable.
pub open spec fn ratio_setting(
    cfg: ConfigView,
    v: Seq<char>,
    n: nat,
    bg: bool,
) -> (ConfigView, Seq<ConfigIssue>) {
    match parse_ratio(v) {
        Some(r) => (if bg {
            ConfigView { bg_fps: r, ..cfg }
        } else {
            ConfigView { fps: r, ..cfg }
        }, seq![]),
        None => (cfg, one_issue(n, IssueKind::UnknownValue)),
    }
}

/// Applies the feature setting `v` to `bit`, or reports it unreadable.
pub open spec fn feature_setting(
    cfg: ConfigView,
    v: Seq<char>,
    n: nat,
    bit: u32,
) -> (ConfigView, Seq<ConfigIssue>) {
    match parse_bool(v) {
        Some(b) => (ConfigView { features: set_feature(cfg.features, bit, b), ..cfg }, seq![]),
        None => (cfg, one_issue(n, IssueKind::UnknownValue)),
    }
}

/// The setting `k = v` of line `n` of the file.
pub open spec fn file_setting(cfg: ConfigView, k: Seq<char>, v: Seq<char>, n: nat) -> (
    ConfigView,
    Seq<ConfigIssue>,
) {
    if k == "fps"@ {
        ratio_setting(cfg, v, n, false)
    } else if k == "bg-fps"@ {
        ratio_setting(cfg, v, n, true)
    } else if k == "menu-fps"@ {
        feature_setting(cfg, v, n, MENU_FPS_BIT)
    } else if k == "game-fps"@ {
        feature_setting(cfg, v, n, GAME_FPS_BIT)
    } else if k == "motion-smoothing"@ {
        feature_setting(cfg, v, n, MOTION_SMOOTHING_BIT)
    } else {
        (cfg, one_issue(n, IssueKind::UnknownKey))
    }
}

/// Line `n` of the file applied to `cfg`. Blank lines and lines starting
/// with `#` (after leading whitespace) are skipped; otherwise the key is the
/// text before the first `=` without trailing whitespace, the value the text
/// after it up to a `#`, without surrounding whitespace.
pub open spec fn file_line(cfg: ConfigView, line: Seq<char>, n: nat) -> (ConfigView, Seq<ConfigIssue>) {
    let l = trim_start(line);
    if l.len() == 0 || l[0] == '#' {
        (cfg, seq![])
    } else {
        match split_once(l, '=') {
            Some((k, v0)) => {
                let v1 = match split_once(v0, '#') {
                    Some((x, _)) => x,
                    None => v0,
                };
                file_setting(cfg, trim_end(k), trim(v1), n)
            },
            None => (cfg, one_issue(n, IssueKind::MissingValue)),
        }
    }
}

/// The lines applied in order, the first numbered `n`, with the issues
/// appended to `issues`.
pub open spec fn file_lines(
    cfg: ConfigView,
    issues: Seq<ConfigIssue>,
    lines: Seq<Seq<char>>,
    n: nat,
) -> (ConfigView, Seq<ConfigIssue>)
    decreases lines.len(),
{
    if lines.len() == 0 {
        (cfg, issues)
    } else {
        let (c1, new) = file_line(cfg, lines[0], n);
        file_lines(c1, issues + new, lines.drop_first(), n + 1)
    }
}

/// The file `text` applied to `cfg`: the new settings and the issues.
pub open spec fn apply_file(cfg: ConfigView, text: Seq<char>) -> (ConfigView, Seq<ConfigIssue>) {
    file_lines(cfg, seq![], text_lines(text), 1)
}

/// The argument `k=v` at position `n`; other keys are ignored.
pub open spec fn arg_setting(cfg: ConfigView, k: Seq<char>, v: Seq<char>, n: nat) -> (
    ConfigView,
    Seq<ConfigIssue>,
) {
    if k == "-fps"@ {
        ratio_setting(cfg, v, n, false)
    } else if k == "-bg-fps"@ {
        ratio_setting(cfg, v, n, true)
    } else if k == "-fmenu-fps"@ {
        feature_setting(cfg, v, n, MENU_FPS_BIT)
    } else if k == "-fgame-fps"@ {
        feature_setting(cfg, v, n, GAME_FPS_BIT)
    } else if k == "-fmotion-smoothing"@ {
        feature_setting(cfg, v, n, MOTION_SMOOTHING_BIT)
    } else {
        (cfg, seq![])
    }
}

/// Argument `n` applied to `cfg`; an argument without `=` is ignored.
pub open spec fn arg_line(cfg: ConfigView, arg: Seq<char>, n: nat) -> (ConfigView, Seq<ConfigIssue>) {
    match split_once(arg, '=') {
        Some((k, v)) => arg_setting(cfg, k, v, n),
        None => (cfg, seq![]),
    }
}

/// The arguments applied in order, the first numbered `n`.
pub open spec fn arg_lines(
    cfg: ConfigView,
    issues: Seq<ConfigIssue>,
    args: Seq<Seq<char>>,
    n: nat,
) -> (ConfigView, Seq<ConfigIssue>)
    decreases args.len(),
{
    if args.len() == 0 {
        (cfg, issues)
    } else {
        let (c1, new) = arg_line(cfg, args[0], n);
        arg_lines(c1, issues + new, args.drop_first(), n + 1)
    }
}

} // verus!

verus! {

impl Config {
    /// The defaults: frame rate `0` (the monitor's), background frame rate
    /// 25, every feature enabled.
    pub fn new() -> (r: Self)
        ensures
            r@ == (ConfigView {
                fps: Ratio { num: 0, den: 1 },
                bg_fps: Ratio { num: 25, den: 1 },
                features: ALL_BITS,
            }),
    {
        Config {
            fps: Ratio::new(0, 1),
            bg_fps: crate::util::game_fps(),
            features: Features::all(),
        }
    }

    fn ratio_setting_exec(
        &mut self,
        s: &Vec<char>,
        vf: usize,
        vt: usize,
        n: usize,
        bg: bool,
        issues: &mut Vec<ConfigIssue>,
    )
        requires
            vf <= vt <= s@.len(),
        ensures
            (final(self)@, final(issues)@) == ({
                let (c, new) = ratio_setting(old(self)@, s@.subrange(vf as int, vt as int), n as nat, bg);
                (c, old(issues)@ + new)
            }),
    {
        match Ratio::parse_chars(s, vf, vt) {
            Ok(r) => {
                if bg {
                    self.bg_fps = r;
                } else {
                    self.fps = r;
                }
                assert(issues@ + seq![] =~= issues@);
            },
            Err(()) => {
                issues.push(ConfigIssue { position: n, kind: IssueKind::UnknownValue });
            },
        }
    }

    fn feature_setting_exec(
        &mut self,
        s: &Vec<char>,
        vf: usize,
        vt: usize,
        n: usize,
        bit: u32,
        issues: &mut Vec<ConfigIssue>,
    )
        requires
            vf <= vt <= s@.len(),
        ensures
            (final(self)@, final(issues)@) == ({
                let (c, new) = feature_setting(old(self)@, s@.subrange(vf as int, vt as int), n as nat, bit);
                (c, old(issues)@ + new)
            }),
    {
        match parse_bool_at(s, vf, vt) {
            Some(b) => {
                self.features = self.features.set(Features::from_bits_retain(bit), b);
                assert(issues@ + seq![] =~= issues@);
            },
            None => {
                issues.push(ConfigIssue { position: n, kind: IssueKind::UnknownValue });
            },
        }
    }

    fn file_setting_exec(
        &mut self,
        s: &Vec<char>,
        kf: usize,
        kt: usize,
        vf: usize,
        vt: usize,
        n: usize,
        issues: &mut Vec<ConfigIssue>,
    )
        requires
            kf <= kt <= s@.len(),
            vf <= vt <= s@.len(),
        ensures
            (final(self)@, final(issues)@) == ({
                let (c, new) = file_setting(
                    old(self)@,
                    s@.subrange(kf as int, kt as int),
                    s@.subrange(vf as int, vt as int),
                    n as nat,
                );
                (c, old(issues)@ + new)
            }),
    {
        if eq_text(s, kf, kt, "fps") {
            self.ratio_setting_exec(s, vf, vt, n, false, issues);
        } else if eq_text(s, kf, kt, "bg-fps") {
            self.ratio_setting_exec(s, vf, vt, n, true, issues);
        } else if eq_text(s, kf, kt, "menu-fps") {
            self.feature_setting_exec(s, vf, vt, n, MENU_FPS_BIT, issues);
        } else if eq_text(s, kf, kt, "game-fps") {
            self.feature_setting_exec(s, vf, vt, n, GAME_FPS_BIT, issues);
        } else if eq_text(s, kf, kt, "motion-smoothing") {
            self.feature_setting_exec(s, vf, vt, n, MOTION_SMOOTHING_BIT, issues);
        } else {
            issues.push(ConfigIssue { position: n, kind: IssueKind::UnknownKey });
        }
    }

    fn arg_setting_exec(
        &mut self,
        s: &Vec<char>,
        kf: usize,
        kt: usize,
        vf: usize,
        vt: usize,
        n: usize,
        issues: &mut Vec<ConfigIssue>,
    )
        requires
            kf <= kt <= s@.len(),
            vf <= vt <= s@.len(),
        ensures
            (final(self)@, final(issues)@) == ({
                let (c, new) = arg_setting(
                    old(self)@,
                    s@.subrange(kf as int, kt as int),
                    s@.subrange(vf as int, vt as int),
                    n as nat,
                );
                (c, old(issues)@ + new)
            }),
    {
        if eq_text(s, kf, kt, "-fps") {
            self.ratio_setting_exec(s, vf, vt, n, false, issues);
        } else if eq_text(s, kf, kt, "-bg-fps") {
            self.ratio_setting_exec(s, vf, vt, n, true, issues);
        } else if eq_text(s, kf, kt, "-fmenu-fps") {
            self.feature_setting_exec(s, vf, vt, n, MENU_FPS_BIT, issues);
        } else if eq_text(s, kf, kt, "-fgame-fps") {
            self.feature_setting_exec(s, vf, vt, n, GAME_FPS_BIT, issues);
        } else if eq_text(s, kf, kt, "-fmotion-smoothing") {
            self.feature_setting_exec(s, vf, vt, n, MOTION_SMOOTHING_BIT, issues);
        } else {
            assert(issues@ + seq![] =~= issues@);
        }
    }

    fn file_line_exec(&mut self, s: &Vec<char>, from: usize, to: usize, n: usize, issues: &mut Vec<ConfigIssue>)
        requires
            from <= to <= s@.len(),
        ensures
            (final(self)@, final(issues)@) == ({
                let (c, new) = file_line(old(self)@, s@.subrange(from as int, to as int), n as nat);
                (c, old(issues)@ + new)
            }),
    {
        let ghost line = s@.subrange(from as int, to as int);
        let a = skip_white(s, from, to);
        let ghost l = trim_start(line);
        assert(l =~= s@.subrange(a as int, to as int));
        if a == to || s[a] == '#' {
            assert(issues@ + seq![] =~= issues@);
            return;
        }
        match find(s, a, to, '=') {
            Some(eq) => {
                let (v1f, v1t) = match find(s, eq + 1, to, '#') {
                    Some(h) => (eq + 1, h),
                    None => (eq + 1, to),
                };
                let ghost k = s@.subrange(a as int, eq as int);
                let ghost v0 = s@.subrange(eq + 1, to as int);
                let ghost v1 = s@.subrange(v1f as int, v1t as int);
                assert(split_once(l, '=') == Some((k, v0))) by {
                    assert(l.take(eq - a) =~= k);
                    assert(l.skip(eq - a + 1) =~= v0);
                }
                assert(v1 == match split_once(v0, '#') {
                    Some((x, _)) => x,
                    None => v0,
                }) by {
                    if let Some(h) = find_char(v0, '#') {
                        assert(v0.take(h) =~= v1);
                    } else {
                        assert(v0 =~= v1);
                    }
                }
                let ke = end_white(s, a, eq);
                assert(trim_end(k) =~= s@.subrange(a as int, ke as int));
                let vs = skip_white(s, v1f, v1t);
                assert(trim_start(v1) =~= s@.subrange(vs as int, v1t as int));
                let ve = end_white(s, vs, v1t);
                assert(trim(v1) =~= s@.subrange(vs as int, ve as int));
                self.file_setting_exec(s, a, ke, vs, ve, n, issues);
            },
            None => {
                issues.push(ConfigIssue { position: n, kind: IssueKind::MissingValue });
            },
        }
    }
}

} // verus!

verus! {

proof fn lemma_file_lines_step(
    cfg: ConfigView,
    issues: Seq<ConfigIssue>,
    l: Seq<char>,
    rest: Seq<Seq<char>>,
    n: nat,
)
    ensures
        file_lines(cfg, issues, seq![l] + rest, n) == ({
            let (c1, new) = file_line(cfg, l, n);
            file_lines(c1, issues + new, rest, n + 1)
        }),
{
    assert((seq![l] + rest).drop_first() =~= rest);
}

proof fn lemma_arg_lines_step(
    cfg: ConfigView,
    issues: Seq<ConfigIssue>,
    args: Seq<Seq<char>>,
    i: int,
    n: nat,
)
    requires
        0 <= i < args.len(),
    ensures
        arg_lines(cfg, issues, args.skip(i), n) == ({
            let (c1, new) = arg_line(cfg, args[i], n);
            arg_lines(c1, issues + new, args.skip(i + 1), n + 1)
        }),
{
    assert(args.skip(i).drop_first() =~= args.skip(i + 1));
}

impl Config {
    /// Applies the settings file `text`, line by line, and gives the issues
    /// of the lines that could not be applied.
    pub fn apply_file(&mut self, text: &str) -> (issues: Vec<ConfigIssue>)
        requires
            text@.len() < usize::MAX,
        ensures
            (final(self)@, issues@) == apply_file(old(self)@, text@),
    {
        let s = chars_of(text);
        let len = s.len();
        let mut issues: Vec<ConfigIssue> = Vec::new();
        let mut i = 0usize;
        let mut n = 1usize;
        assert(s@.skip(0) =~= s@);
        while i < len
            invariant
                len == s@.len(),
                s@ == text@,
                len < usize::MAX,
                i <= len,
                1 <= n <= i + 1,
                apply_file(old(self)@, text@) == file_lines(self@, issues@, text_lines(s@.skip(i as int)), n as nat),
            decreases len - i,
        {
            let ghost rest = s@.skip(i as int);
            assert(rest =~= s@.subrange(i as int, len as int));
            match find(&s, i, len, '\n') {
                Some(k) => {
                    let e = if k > i && s[k - 1] == '\r' {
                        k - 1
                    } else {
                        k
                    };
                    proof {
                        assert(strip_cr(rest.take(k - i)) =~= s@.subrange(i as int, e as int));
                        assert(rest.skip(k - i + 1) =~= s@.skip(k + 1));
                        assert(text_lines(rest) == seq![s@.subrange(i as int, e as int)] + text_lines(s@.skip(k + 1)));
                        lemma_file_lines_step(self@, issues@, s@.subrange(i as int, e as int), text_lines(s@.skip(k + 1)), n as nat);
                    }
                    self.file_line_exec(&s, i, e, n, &mut issues);
                    i = k + 1;
                    n = n + 1;
                },
                None => {
                    proof {
                        assert(text_lines(rest) == seq![s@.subrange(i as int, len as int)]);
                        lemma_file_lines_step(self@, issues@, s@.subrange(i as int, len as int), seq![], n as nat);
                    }
                    self.file_line_exec(&s, i, len, n, &mut issues);
                    i = len;
                    proof {
                        assert(s@.skip(len as int) =~= Seq::<char>::empty());
                    }
                },
            }
        }
        proof {
            assert(s@.skip(i as int) =~= Seq::<char>::empty());
        }
        issues
    }

    /// Applies the command line arguments, in order, and gives the issues of
    /// those that could not be applied.
    pub fn apply_args(&mut self, args: &Vec<String>) -> (issues: Vec<ConfigIssue>)
        requires
            args@.len() < usize::MAX,
        ensures
            (final(self)@, issues@) == arg_lines(old(self)@, seq![], args@.map_values(|a: String| a@), 1),
    {
        let ghost all = args@.map_values(|a: String| a@);
        let mut issues: Vec<ConfigIssue> = Vec::new();
        let mut i = 0usize;
        assert(all.skip(0) =~= all);
        while i < args.len()
            invariant
                all == args@.map_values(|a: String| a@),
                args@.len() < usize::MAX,
                i <= args@.len(),
                arg_lines(old(self)@, seq![], all, 1) == arg_lines(self@, issues@, all.skip(i as int), (i + 1) as nat),
            decreases args@.len() - i,
        {
            let s = chars_of(args[i].as_str());
            let len = s.len();
            proof {
                assert(all[i as int] == s@);
                lemma_arg_lines_step(self@, issues@, all, i as int, (i + 1) as nat);
                assert(s@.subrange(0, len as int) =~= s@);
            }
            match find(&s, 0, len, '=') {
                Some(k) => {
                    proof {
                        assert(s@.take(k as int) =~= s@.subrange(0, k as int));
                        assert(s@.skip(k + 1) =~= s@.subrange(k + 1, len as int));
                    }
                    self.arg_setting_exec(&s, 0, k, k + 1, len, i + 1, &mut issues);
                },
                None => {
                    assert(issues@ + seq![] =~= issues@);
                },
            }
            i = i + 1;
        }
        proof {
            assert(all.skip(i as int) =~= Seq::<Seq<char>>::empty());
        }
        issues
    }

    /// Applies the settings file, when it could be read, then the command
    /// line arguments; gives the issues of each.
    pub fn load_config(&mut self, file: Option<&str>, args: &Vec<String>) -> (r: (Vec<ConfigIssue>, Vec<ConfigIssue>))
        requires
            file matches Some(t) ==> t@.len() < usize::MAX,
            args@.len() < usize::MAX,
        ensures
            ({
                let (after_file, file_issues) = match file {
                    Some(t) => apply_file(old(self)@, t@),
                    None => (old(self)@, seq![]),
                };
                let (after_args, arg_issues) = arg_lines(after_file, seq![], args@.map_values(|a: String| a@), 1);
                &&& final(self)@ == after_args
                &&& r.0@ == file_issues
                &&& r.1@ == arg_issues
            }),
    {
        let file_issues = match file {
            Some(t) => self.apply_file(t),
            None => Vec::new(),
        };
        let arg_issues = self.apply_args(args);
        (file_issues, arg_issues)
    }
}


/// A setting line of the file reads the same when whitespace (a tab, say)
/// stands between its key and the `=` and between the `=` and its value:
/// `k\t=\tv` sets what `k=v` sets, with the same issues.
pub proof fn law_padded_setting_line(
    cfg: ConfigView,
    k: Seq<char>,
    v: Seq<char>,
    c: char,
    d: char,
    n: nat,
)
    requires
        unicode_white_space().contains(c as u32),
        unicode_white_space().contains(d as u32),
        k.len() > 0,
        !unicode_white_space().contains(k[0] as u32),
        k[0] != '#',
        forall|i: int| 0 <= i < k.len() ==> k[i] != '=',
        forall|i: int| 0 <= i < v.len() ==> v[i] != '#',
    ensures
        file_line(cfg, k + seq![c, '=', d] + v, n) == file_line(cfg, k + seq!['='] + v, n),
{
    law_white_is_unicode_white_space(c);
    law_white_is_unicode_white_space(d);
    law_white_is_unicode_white_space(k[0]);
    let padded = k + seq![c, '=', d] + v;
    let plain = k + seq!['='] + v;
    assert(padded[0] == k[0] && plain[0] == k[0]);
    lemma_first_non_white_at(padded, 0);
    lemma_first_non_white_at(plain, 0);
    assert(trim_start(padded) =~= padded);
    assert(trim_start(plain) =~= plain);
    let kc = k.push(c);
    let dv = seq![d] + v;
    assert(padded =~= kc + seq!['='] + dv);
    assert forall|i: int| 0 <= i < kc.len() implies kc[i] != '=' by {
        if i < k.len() {
            assert(kc[i] == k[i]);
        }
    }
    lemma_find_after(kc, '=', dv);
    assert(split_once(padded, '=') == Some((kc, dv))) by {
        assert(padded.take(kc.len() as int) =~= kc);
        assert(padded.skip(kc.len() as int + 1) =~= dv);
    }
    lemma_find_after(k, '=', v);
    assert(split_once(plain, '=') == Some((k, v))) by {
        assert(plain.take(k.len() as int) =~= k);
        assert(plain.skip(k.len() as int + 1) =~= v);
    }
    assert forall|i: int| 0 <= i < dv.len() implies dv[i] != '#' by {
        if i > 0 {
            assert(dv[i] == v[i - 1]);
        }
    }
    lemma_find_absent(dv, '#');
    lemma_find_absent(v, '#');
    law_trim_drops_added_white(k, c);
    law_trim_drops_added_white(v, d);
}

} // verus!
