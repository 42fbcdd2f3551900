//! The activation ring, the hologram reveal and the session banner.
use vstd::prelude::*;
use crate::text::push_str;

verus! {

pub const CYAN: &'static str = "\x1b[38;5;45m";

pub const BLUE: &'static str = "\x1b[38;5;39m";

pub const DIM_BLUE: &'static str = "\x1b[38;5;25m";

pub const WHITE_BLUE: &'static str = "\x1b[38;5;159m";

pub const RESET: &'static str = "\x1b[0m";

pub const BOLD: &'static str = "\x1b[1m";

pub const DIM: &'static str = "\x1b[2m";

/// The text of the activation ring and the greeting.
pub const BOOT_ART: &'static str = "\n                 ███████                 \n              ███       ███              \n            ██             ██            \n           ██               ██           \n           ██               ██           \n            ██             ██            \n              ███       ███              \n                 ███████                 \n\n              Hi, I’m Cortana.           \n";

/// The text of the session-start line.
pub const ONLINE_LINE: &'static str = "Cortana presence online. Voice and recap channels standing by.\n";

/// The lines of the hologram reveal.
pub open spec fn appearance_lines() -> Seq<Seq<char>> {
    seq![
        "                    ·  .   ·        .                  "@,
        "                 .      ░░▒▒▒▒░░      ·               "@,
        "                    ░▒▓▓▓▓▓▓▓▓▓▓▒░                    "@,
        "                  ░▒▓▓██▓▒░░▒▓██▓▒░                  "@,
        "                 ░▓██▓░          ░▓██░                "@,
        "               · ▒██▒   ░░▒▒▒▒░░   ▒██▒ ·             "@,
        "                ▒██░  ░▒▓████▓▒░  ░██▒               "@,
        "                ▓█▓   ▒██░  ░██▒   ▓█▓               "@,
        "                ▒██░  ░▒▓████▓▒░  ░██▒               "@,
        "                 ▒██▒    ░▒▒░    ▒██▒                "@,
        "                  ░▓██▒░        ░▒██▓░                "@,
        "                    ░▒▓██▓▒▒▒▒▓██▓▒░                  "@,
        "                       ░▒▓████▓▒░                     "@,
        "                         ░▒██▒░                       "@,
        "               ░▒▒░       ▒██▒       ░▒▒░             "@,
        "            ░▒▓████▓▒░  ░▒████▒░  ░▒▓████▓▒░          "@,
        "          ░▓██▓▒░░▒▓██▓▓████████▓▓██▓▒░░▒▓██▓░        "@,
        "         ▒██▒░      ░▒▓██▓▒░░▒▓██▓▒░      ░▒██▒       "@,
        "        ░██▒    ░▒▓████▒░      ░▒████▓▒░    ▒██░      "@,
        "        ▒██░ ░▒▓██▓▒░              ░▒▓██▓▒░ ░██▒      "@,
        "        ▓██▓▓██▓▒░    ░░▒▒▓▓▒▒░░    ░▒▓██▓▓██▓       "@,
        "        ░▒▓▓▒░     ░▒▓████████▓▒░     ░▒▓▓▒░         "@,
        "          ·      ░▒▓██▓▒░    ░▒▓██▓▒░      ·         "@,
        "                    ·   booting presence   ·          "@,
    ]
}

/// The colour of line `i` of the reveal.
pub open spec fn line_color(i: int) -> Seq<char> {
    if i % 4 == 0 {
        DIM_BLUE@
    } else if i % 4 == 1 {
        BLUE@
    } else if i % 4 == 2 {
        CYAN@
    } else {
        WHITE_BLUE@
    }
}

/// The first `n` lines of the reveal, each in its colour (the last one dimmed too), reset and
/// ended by a newline.
pub open spec fn appearance_text(n: int) -> Seq<char>
    decreases n,
{
    if n <= 0 {
        seq![]
    } else {
        appearance_text(n - 1) + line_color(n - 1) + (if n - 1 == appearance_lines().len() - 1 {
            DIM@
        } else {
            seq![]
        }) + appearance_lines()[n - 1] + RESET@ + seq!['\n']
    }
}

/// The text in a colour, then reset.
pub fn colorize(text: &str, color: &str) -> (r: String)
    ensures
        r@ == color@ + text@ + RESET@,
{
    let mut r = String::new();
    push_str(&mut r, color);
    push_str(&mut r, text);
    push_str(&mut r, RESET);
    r
}

/// Minimal boot splash: a cyan activation ring and greeting.
pub fn boot_splash() -> (r: String)
    ensures
        r@ == CYAN@ + BOOT_ART@ + RESET@,
{
    colorize(BOOT_ART, CYAN)
}

fn appearance_line(i: usize) -> (r: &'static str)
    requires
        i < 24,
    ensures
        r@ == appearance_lines()[i as int],
{
    match i {
        0 => "                    ·  .   ·        .                  ",
        1 => "                 .      ░░▒▒▒▒░░      ·               ",
        2 => "                    ░▒▓▓▓▓▓▓▓▓▓▓▒░                    ",
        3 => "                  ░▒▓▓██▓▒░░▒▓██▓▒░                  ",
        4 => "                 ░▓██▓░          ░▓██░                ",
        5 => "               · ▒██▒   ░░▒▒▒▒░░   ▒██▒ ·             ",
        6 => "                ▒██░  ░▒▓████▓▒░  ░██▒               ",
        7 => "                ▓█▓   ▒██░  ░██▒   ▓█▓               ",
        8 => "                ▒██░  ░▒▓████▓▒░  ░██▒               ",
        9 => "                 ▒██▒    ░▒▒░    ▒██▒                ",
        10 => "                  ░▓██▒░        ░▒██▓░                ",
        11 => "                    ░▒▓██▓▒▒▒▒▓██▓▒░                  ",
        12 => "                       ░▒▓████▓▒░                     ",
        13 => "                         ░▒██▒░                       ",
        14 => "               ░▒▒░       ▒██▒       ░▒▒░             ",
        15 => "            ░▒▓████▓▒░  ░▒████▒░  ░▒▓████▓▒░          ",
        16 => "          ░▓██▓▒░░▒▓██▓▓████████▓▓██▓▒░░▒▓██▓░        ",
        17 => "         ▒██▒░      ░▒▓██▓▒░░▒▓██▓▒░      ░▒██▒       ",
        18 => "        ░██▒    ░▒▓████▒░      ░▒████▓▒░    ▒██░      ",
        19 => "        ▒██░ ░▒▓██▓▒░              ░▒▓██▓▒░ ░██▒      ",
        20 => "        ▓██▓▓██▓▒░    ░░▒▒▓▓▒▒░░    ░▒▓██▓▓██▓       ",
        21 => "        ░▒▓▓▒░     ░▒▓████████▓▒░     ░▒▓▓▒░         ",
        22 => "          ·      ░▒▓██▓▒░    ░▒▓██▓▒░      ·         ",
        _ => "                    ·   booting presence   ·          ",
    }
}

/// Pixelated, grainy hologram reveal shown when Cortana appears to speak.
pub fn appearance_splash() -> (r: String)
    ensures
        r@ == appearance_text(appearance_lines().len() as int),
{
    let mut output = String::new();
    let n: usize = 24;
    assert(appearance_lines().len() == 24);
    let mut index: usize = 0;
    while index < n
        invariant
            n == appearance_lines().len(),
            index <= n,
            output@ == appearance_text(index as int),
        decreases n - index,
    {
        let color = if index % 4 == 0 {
            DIM_BLUE
        } else if index % 4 == 1 {
            BLUE
        } else if index % 4 == 2 {
            CYAN
        } else {
            WHITE_BLUE
        };
        let ghost before = output@;
        push_str(&mut output, color);
        let ghost dimmed = output@;
        if index == n - 1 {
            push_str(&mut output, DIM);
        }
        push_str(&mut output, appearance_line(index));
        push_str(&mut output, RESET);
        crate::text::push_char(&mut output, '\n');
        assert(output@ =~= appearance_text(index + 1));
        index = index + 1;
    }
    output
}

/// Session-start banner: bold boot ring, the hologram reveal, and the online line in cyan.
pub fn session_start_banner() -> (r: String)
    ensures
        r@ == BOLD@ + (CYAN@ + BOOT_ART@ + RESET@) + seq!['\n'] + RESET@ + appearance_text(
            appearance_lines().len() as int,
        ) + seq!['\n'] + (CYAN@ + ONLINE_LINE@ + RESET@),
{
    let mut r = String::new();
    push_str(&mut r, BOLD);
    let b = boot_splash();
    push_str(&mut r, b.as_str());
    crate::text::push_char(&mut r, '\n');
    push_str(&mut r, RESET);
    let a = appearance_splash();
    push_str(&mut r, a.as_str());
    crate::text::push_char(&mut r, '\n');
    let c = colorize(ONLINE_LINE, CYAN);
    push_str(&mut r, c.as_str());
    assert(r@ =~= BOLD@ + (CYAN@ + BOOT_ART@ + RESET@) + seq!['\n'] + RESET@ + appearance_text(
        appearance_lines().len() as int,
    ) + seq!['\n'] + (CYAN@ + ONLINE_LINE@ + RESET@));
    r
}

} // verus!
