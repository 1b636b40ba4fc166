//! The interactive console: the pages it paints and the command handler.
//!
//! Everything here is pure screen logic over the `Cga` grid; reading the
//! keyboard and blitting to the adapter stay with the driver layer outside
//! this crate, which hands the typed command line in as a string.

use crate::screen::{Cga, blank_grid, write_box, write_str};
use vstd::prelude::*;

verus! {

/// The screen this page paints, cell by cell.
pub open spec fn start_gui_grid() -> Seq<char> {
    let g0 = blank_grid();
    let g1 = write_str(g0, 0, 0, "                                                                 "@);
    let g2 = write_str(g1, 0, 1, "                                                                 "@);
    let g3 = write_str(g2, 0, 2, " _|    _|                                                        "@);
    let g4 = write_str(g3, 0, 3, "                                        _|                       "@);
    let g5 = write_str(g4, 0, 4, " _|    _|  _|_|_|_|    _|_|    _|    _|      _|  _|_|            "@);
    let g6 = write_str(g5, 0, 5, " _|    _|      _|    _|_|_|_|  _|    _|  _|  _|_|                "@);
    let g7 = write_str(g6, 0, 6, " _|    _|    _|      _|        _|    _|  _|  _|                  "@);
    let g8 = write_str(g7, 0, 7, "   _|_|    _|_|_|_|    _|_|_|    _|_|_|  _|  _|                  "@);
    let g9 = write_str(g8, 0, 8, "                                     _|                          "@);
    let g10 = write_str(g9, 0, 9, "                                 _|_|                            "@);
    let g11 = write_str(g10, 0, 10, "                                                                 "@);
    let g12 = write_str(g11, 0, 11, "                     UzeyirOS v1.4.0                             "@);
    let g13 = write_str(g12, 0, 12, "                                                                 "@);
    let g14 = write_box(g13, 5, 15, 70, 6);
    let g15 = write_str(g14, 7, 16, "Uzeyiros v1.1.0 - Personal Operating System"@);
    let g16 = write_str(g15, 7, 17, "Author: Uzeyir Ismail Bahtiyar | Email: uzeyirismailbahtiyar@gmail.com"@);
    let g17 = write_str(g16, 7, 18, "Language: Rust | Architecture: x86_64 | Display: CGA"@);
    let g18 = write_str(g17, 7, 19, "Status: Running | GUI: Active | Shell: Ready"@);
    let g19 = write_str(g18, 7, 20, "Commands: help, portfolio, about, contact, skills, projects, info, clear, exit"@);
    let g20 = write_str(g19, 5, 22, "uzeyiros> "@);
    g20
}

/// Paints the main page: the logo, the system-information box, and the prompt.
pub fn start_gui(cga: &mut Cga)
    requires
        old(cga).wf(),
    ensures
        final(cga).wf(),
        final(cga).cells@ == start_gui_grid(),
{
    cga.blank();
    cga.put_string_at(0, 0, "                                                                 ");
    cga.put_string_at(0, 1, "                                                                 ");
    cga.put_string_at(0, 2, " _|    _|                                                        ");
    cga.put_string_at(0, 3, "                                        _|                       ");
    cga.put_string_at(0, 4, " _|    _|  _|_|_|_|    _|_|    _|    _|      _|  _|_|            ");
    cga.put_string_at(0, 5, " _|    _|      _|    _|_|_|_|  _|    _|  _|  _|_|                ");
    cga.put_string_at(0, 6, " _|    _|    _|      _|        _|    _|  _|  _|                  ");
    cga.put_string_at(0, 7, "   _|_|    _|_|_|_|    _|_|_|    _|_|_|  _|  _|                  ");
    cga.put_string_at(0, 8, "                                     _|                          ");
    cga.put_string_at(0, 9, "                                 _|_|                            ");
    cga.put_string_at(0, 10, "                                                                 ");
    cga.put_string_at(0, 11, "                     UzeyirOS v1.4.0                             ");
    cga.put_string_at(0, 12, "                                                                 ");
    cga.draw_box(5, 15, 70, 6);
    cga.put_string_at(7, 16, "Uzeyiros v1.1.0 - Personal Operating System");
    cga.put_string_at(7, 17, "Author: Uzeyir Ismail Bahtiyar | Email: uzeyirismailbahtiyar@gmail.com");
    cga.put_string_at(7, 18, "Language: Rust | Architecture: x86_64 | Display: CGA");
    cga.put_string_at(7, 19, "Status: Running | GUI: Active | Shell: Ready");
    cga.put_string_at(7, 20, "Commands: help, portfolio, about, contact, skills, projects, info, clear, exit");
    cga.put_string_at(5, 22, "uzeyiros> ");
}

/// The screen this page paints, cell by cell.
pub open spec fn start_portfolio_gui_grid() -> Seq<char> {
    let g0 = blank_grid();
    let g1 = write_str(g0, 5, 2, "+==============================================================================+"@);
    let g2 = write_str(g1, 5, 3, "|                    UZEYIR ISMAIL BAHTIYAR                        |"@);
    let g3 = write_str(g2, 5, 4, "|                        PORTFOLIO                                 |"@);
    let g4 = write_str(g3, 5, 5, "+==============================================================================+"@);
    let g5 = write_str(g4, 10, 8, "1. About Me (about)"@);
    let g6 = write_str(g5, 10, 9, "2. Contact Info (contact)"@);
    let g7 = write_str(g6, 10, 10, "3. Technical Skills (skills)"@);
    let g8 = write_str(g7, 10, 11, "4. My Projects (projects)"@);
    let g9 = write_str(g8, 10, 12, "5. System Info (info)"@);
    let g10 = write_str(g9, 10, 13, "6. Return to Main Menu (exit)"@);
    let g11 = write_str(g10, 5, 15, "+==============================================================================+"@);
    let g12 = write_str(g11, 5, 16, "|  Type command: about, contact, skills, projects, info, exit        |"@);
    let g13 = write_str(g12, 5, 17, "+==============================================================================+"@);
    g13
}

/// Paints the portfolio menu page.
pub fn start_portfolio_gui(cga: &mut Cga)
    requires
        old(cga).wf(),
    ensures
        final(cga).wf(),
        final(cga).cells@ == start_portfolio_gui_grid(),
{
    cga.blank();
    cga.put_string_at(5, 2, "+==============================================================================+");
    cga.put_string_at(5, 3, "|                    UZEYIR ISMAIL BAHTIYAR                        |");
    cga.put_string_at(5, 4, "|                        PORTFOLIO                                 |");
    cga.put_string_at(5, 5, "+==============================================================================+");
    cga.put_string_at(10, 8, "1. About Me (about)");
    cga.put_string_at(10, 9, "2. Contact Info (contact)");
    cga.put_string_at(10, 10, "3. Technical Skills (skills)");
    cga.put_string_at(10, 11, "4. My Projects (projects)");
    cga.put_string_at(10, 12, "5. System Info (info)");
    cga.put_string_at(10, 13, "6. Return to Main Menu (exit)");
    cga.put_string_at(5, 15, "+==============================================================================+");
    cga.put_string_at(5, 16, "|  Type command: about, contact, skills, projects, info, exit        |");
    cga.put_string_at(5, 17, "+==============================================================================+");
}

/// The screen this page paints, cell by cell.
pub open spec fn start_about_gui_grid() -> Seq<char> {
    let g0 = blank_grid();
    let g1 = write_str(g0, 5, 2, "+==============================================================================+"@);
    let g2 = write_str(g1, 5, 3, "|                                  ABOUT ME                                  |"@);
    let g3 = write_str(g2, 5, 4, "+==============================================================================+"@);
    let g4 = write_str(g3, 10, 6, "Hello! I am Uzeyir Ismail Bahtiyar."@);
    let g5 = write_str(g4, 10, 7, "I am a passionate software developer."@);
    let g6 = write_str(g5, 10, 8, ""@);
    let g7 = write_str(g6, 10, 9, "I have experience in system programming,"@);
    let g8 = write_str(g7, 10, 10, "operating system development, and"@);
    let g9 = write_str(g8, 10, 11, "low-level programming."@);
    let g10 = write_str(g9, 10, 12, ""@);
    let g11 = write_str(g10, 10, 13, "This UzeyirOS project is part of my journey"@);
    let g12 = write_str(g11, 10, 14, "in developing my own operating system"@);
    let g13 = write_str(g12, 10, 15, "using Rust for bare-metal programming."@);
    let g14 = write_str(g13, 5, 17, "+==============================================================================+"@);
    let g15 = write_str(g14, 5, 18, "|                    Type 'exit' to return to main menu                      |"@);
    let g16 = write_str(g15, 5, 19, "+==============================================================================+"@);
    g16
}

/// Paints the about page.
pub fn start_about_gui(cga: &mut Cga)
    requires
        old(cga).wf(),
    ensures
        final(cga).wf(),
        final(cga).cells@ == start_about_gui_grid(),
{
    cga.blank();
    cga.put_string_at(5, 2, "+==============================================================================+");
    cga.put_string_at(5, 3, "|                                  ABOUT ME                                  |");
    cga.put_string_at(5, 4, "+==============================================================================+");
    cga.put_string_at(10, 6, "Hello! I am Uzeyir Ismail Bahtiyar.");
    cga.put_string_at(10, 7, "I am a passionate software developer.");
    cga.put_string_at(10, 8, "");
    cga.put_string_at(10, 9, "I have experience in system programming,");
    cga.put_string_at(10, 10, "operating system development, and");
    cga.put_string_at(10, 11, "low-level programming.");
    cga.put_string_at(10, 12, "");
    cga.put_string_at(10, 13, "This UzeyirOS project is part of my journey");
    cga.put_string_at(10, 14, "in developing my own operating system");
    cga.put_string_at(10, 15, "using Rust for bare-metal programming.");
    cga.put_string_at(5, 17, "+==============================================================================+");
    cga.put_string_at(5, 18, "|                    Type 'exit' to return to main menu                      |");
    cga.put_string_at(5, 19, "+==============================================================================+");
}

/// The screen this page paints, cell by cell.
pub open spec fn start_contact_gui_grid() -> Seq<char> {
    let g0 = blank_grid();
    let g1 = write_str(g0, 5, 2, "+==============================================================================+"@);
    let g2 = write_str(g1, 5, 3, "|                                CONTACT                                   |"@);
    let g3 = write_str(g2, 5, 4, "+==============================================================================+"@);
    let g4 = write_str(g3, 10, 6, "Email: uzeyirismailbahtiyar@gmail.com"@);
    let g5 = write_str(g4, 10, 7, "GitHub: https://github.com/uzeyirrr"@);
    let g6 = write_str(g5, 10, 8, "LinkedIn: https://www.linkedin.com/in/uzeyirismail/"@);
    let g7 = write_str(g6, 10, 9, "Website: yezuri.com"@);
    let g8 = write_str(g7, 10, 10, ""@);
    let g9 = write_str(g8, 10, 11, "Feel free to contact me to discuss"@);
    let g10 = write_str(g9, 10, 12, "projects or potential collaborations!"@);
    let g11 = write_str(g10, 5, 14, "+==============================================================================+"@);
    let g12 = write_str(g11, 5, 15, "|                    Type 'exit' to return to main menu                      |"@);
    let g13 = write_str(g12, 5, 16, "+==============================================================================+"@);
    g13
}

/// Paints the contact page.
pub fn start_contact_gui(cga: &mut Cga)
    requires
        old(cga).wf(),
    ensures
        final(cga).wf(),
        final(cga).cells@ == start_contact_gui_grid(),
{
    cga.blank();
    cga.put_string_at(5, 2, "+==============================================================================+");
    cga.put_string_at(5, 3, "|                                CONTACT                                   |");
    cga.put_string_at(5, 4, "+==============================================================================+");
    cga.put_string_at(10, 6, "Email: uzeyirismailbahtiyar@gmail.com");
    cga.put_string_at(10, 7, "GitHub: https://github.com/uzeyirrr");
    cga.put_string_at(10, 8, "LinkedIn: https://www.linkedin.com/in/uzeyirismail/");
    cga.put_string_at(10, 9, "Website: yezuri.com");
    cga.put_string_at(10, 10, "");
    cga.put_string_at(10, 11, "Feel free to contact me to discuss");
    cga.put_string_at(10, 12, "projects or potential collaborations!");
    cga.put_string_at(5, 14, "+==============================================================================+");
    cga.put_string_at(5, 15, "|                    Type 'exit' to return to main menu                      |");
    cga.put_string_at(5, 16, "+==============================================================================+");
}

/// The screen this page paints, cell by cell.
pub open spec fn start_skills_gui_grid() -> Seq<char> {
    let g0 = blank_grid();
    let g1 = write_str(g0, 5, 2, "+==============================================================================+"@);
    let g2 = write_str(g1, 5, 3, "|                            TECHNICAL SKILLS                             |"@);
    let g3 = write_str(g2, 5, 4, "+==============================================================================+"@);
    let g4 = write_str(g3, 10, 6, "Rust - System programming, bare-metal"@);
    let g5 = write_str(g4, 10, 7, "Linux - System administration, shell scripting"@);
    let g6 = write_str(g5, 10, 8, "C/C++ - System programming, embedded"@);
    let g7 = write_str(g6, 10, 9, "Python - Web development, automation"@);
    let g8 = write_str(g7, 10, 10, "JavaScript/TypeScript - Frontend/Backend"@);
    let g9 = write_str(g8, 10, 11, "SQL - Database design and management"@);
    let g10 = write_str(g9, 10, 12, "Docker - Containerization"@);
    let g11 = write_str(g10, 10, 13, "Cloud - AWS, Azure"@);
    let g12 = write_str(g11, 10, 14, "Git - Version control"@);
    let g13 = write_str(g12, 10, 15, "Mobile - React Native"@);
    let g14 = write_str(g13, 5, 17, "+==============================================================================+"@);
    let g15 = write_str(g14, 5, 18, "|                    Type 'exit' to return to main menu                      |"@);
    let g16 = write_str(g15, 5, 19, "+==============================================================================+"@);
    g16
}

/// Paints the skills page.
pub fn start_skills_gui(cga: &mut Cga)
    requires
        old(cga).wf(),
    ensures
        final(cga).wf(),
        final(cga).cells@ == start_skills_gui_grid(),
{
    cga.blank();
    cga.put_string_at(5, 2, "+==============================================================================+");
    cga.put_string_at(5, 3, "|                            TECHNICAL SKILLS                             |");
    cga.put_string_at(5, 4, "+==============================================================================+");
    cga.put_string_at(10, 6, "Rust - System programming, bare-metal");
    cga.put_string_at(10, 7, "Linux - System administration, shell scripting");
    cga.put_string_at(10, 8, "C/C++ - System programming, embedded");
    cga.put_string_at(10, 9, "Python - Web development, automation");
    cga.put_string_at(10, 10, "JavaScript/TypeScript - Frontend/Backend");
    cga.put_string_at(10, 11, "SQL - Database design and management");
    cga.put_string_at(10, 12, "Docker - Containerization");
    cga.put_string_at(10, 13, "Cloud - AWS, Azure");
    cga.put_string_at(10, 14, "Git - Version control");
    cga.put_string_at(10, 15, "Mobile - React Native");
    cga.put_string_at(5, 17, "+==============================================================================+");
    cga.put_string_at(5, 18, "|                    Type 'exit' to return to main menu                      |");
    cga.put_string_at(5, 19, "+==============================================================================+");
}

/// The screen this page paints, cell by cell.
pub open spec fn start_projects_gui_grid() -> Seq<char> {
    let g0 = blank_grid();
    let g1 = write_str(g0, 5, 2, "+==============================================================================+"@);
    let g2 = write_str(g1, 5, 3, "|                               MY PROJECTS                               |"@);
    let g3 = write_str(g2, 5, 4, "+==============================================================================+"@);
    let g4 = write_str(g3, 10, 6, "UzeyirOS - Operating system written in Rust"@);
    let g5 = write_str(g4, 10, 7, "   * Bare-metal programming"@);
    let g6 = write_str(g5, 10, 8, "   * Multi-processor support"@);
    let g7 = write_str(g6, 10, 9, "   * Interactive GUI and shell"@);
    let g8 = write_str(g7, 10, 10, ""@);
    let g9 = write_str(g8, 10, 11, "Web Applications"@);
    let g10 = write_str(g9, 10, 12, "   * React/Node.js projects"@);
    let g11 = write_str(g10, 10, 13, "   * RESTful APIs"@);
    let g12 = write_str(g11, 10, 14, ""@);
    let g13 = write_str(g12, 10, 15, "Mobile Applications"@);
    let g14 = write_str(g13, 10, 16, "   * React Native projects"@);
    let g15 = write_str(g14, 10, 17, "   * Cross-platform solutions"@);
    let g16 = write_str(g15, 5, 19, "+==============================================================================+"@);
    let g17 = write_str(g16, 5, 20, "|                    Type 'exit' to return to main menu                      |"@);
    let g18 = write_str(g17, 5, 21, "+==============================================================================+"@);
    g18
}

/// Paints the projects page.
pub fn start_projects_gui(cga: &mut Cga)
    requires
        old(cga).wf(),
    ensures
        final(cga).wf(),
        final(cga).cells@ == start_projects_gui_grid(),
{
    cga.blank();
    cga.put_string_at(5, 2, "+==============================================================================+");
    cga.put_string_at(5, 3, "|                               MY PROJECTS                               |");
    cga.put_string_at(5, 4, "+==============================================================================+");
    cga.put_string_at(10, 6, "UzeyirOS - Operating system written in Rust");
    cga.put_string_at(10, 7, "   * Bare-metal programming");
    cga.put_string_at(10, 8, "   * Multi-processor support");
    cga.put_string_at(10, 9, "   * Interactive GUI and shell");
    cga.put_string_at(10, 10, "");
    cga.put_string_at(10, 11, "Web Applications");
    cga.put_string_at(10, 12, "   * React/Node.js projects");
    cga.put_string_at(10, 13, "   * RESTful APIs");
    cga.put_string_at(10, 14, "");
    cga.put_string_at(10, 15, "Mobile Applications");
    cga.put_string_at(10, 16, "   * React Native projects");
    cga.put_string_at(10, 17, "   * Cross-platform solutions");
    cga.put_string_at(5, 19, "+==============================================================================+");
    cga.put_string_at(5, 20, "|                    Type 'exit' to return to main menu                      |");
    cga.put_string_at(5, 21, "+==============================================================================+");
}

/// Whitespace the shell strips from the ends of a command line.
pub open spec fn is_space(c: char) -> bool {
    c == ' ' || c == '\t' || c == '\n' || c == '\r'
}

pub open spec fn trim_front(s: Seq<char>) -> Seq<char>
    decreases s.len(),
{
    if s.len() > 0 && is_space(s[0]) {
        trim_front(s.subrange(1, s.len() as int))
    } else {
        s
    }
}

pub open spec fn trim_back(s: Seq<char>) -> Seq<char>
    decreases s.len(),
{
    if s.len() > 0 && is_space(s.last()) {
        trim_back(s.drop_last())
    } else {
        s
    }
}

/// The command line with leading and trailing whitespace removed.
pub open spec fn trimmed(s: Seq<char>) -> Seq<char> {
    trim_back(trim_front(s))
}

/// Dropping a whitespace prefix of length `lo` is what `trim_front` does.
proof fn lemma_trim_front_at(s: Seq<char>, lo: int)
    requires
        0 <= lo <= s.len(),
        forall|j: int| 0 <= j < lo ==> is_space(s[j]),
        lo == s.len() || !is_space(s[lo]),
    ensures
        trim_front(s) == s.subrange(lo, s.len() as int),
    decreases lo,
{
    if lo == 0 {
        assert(s.subrange(0, s.len() as int) =~= s);
    } else {
        assert(is_space(s[0]));
        let s1 = s.subrange(1, s.len() as int);
        assert forall|j: int| 0 <= j < lo - 1 implies is_space(s1[j]) by {
            assert(s1[j] == s[j + 1]);
        }
        if lo - 1 < s1.len() {
            assert(s1[lo - 1] == s[lo]);
        }
        lemma_trim_front_at(s1, lo - 1);
        assert(s1.subrange(lo - 1, s1.len() as int) =~= s.subrange(lo, s.len() as int));
    }
}

/// Dropping a whitespace suffix down to `hi` is what `trim_back` does.
proof fn lemma_trim_back_at(s: Seq<char>, hi: int)
    requires
        0 <= hi <= s.len(),
        forall|j: int| hi <= j < s.len() ==> is_space(s[j]),
        hi == 0 || !is_space(s[hi - 1]),
    ensures
        trim_back(s) == s.subrange(0, hi),
    decreases s.len(),
{
    if hi == s.len() {
        assert(s.subrange(0, s.len() as int) =~= s);
    } else {
        assert(is_space(s[s.len() - 1]));
        let d = s.drop_last();
        assert forall|j: int| hi <= j < d.len() implies is_space(d[j]) by {
            assert(d[j] == s[j]);
        }
        if hi > 0 {
            assert(d[hi - 1] == s[hi - 1]);
        }
        lemma_trim_back_at(d, hi);
        assert(d.subrange(0, hi) =~= s.subrange(0, hi));
    }
}

/// Whether `c` is shell whitespace.
fn is_space_char(c: char) -> (r: bool)
    ensures
        r == is_space(c),
{
    c == ' ' || c == '\t' || c == '\n' || c == '\r'
}

/// The command line without its leading and trailing whitespace.
pub fn str_trim(s: &str) -> (r: &str)
    ensures
        r@ == trimmed(s@),
        r@.len() <= s@.len(),
{
    let n = s.unicode_len();
    let mut lo: usize = 0;
    while lo < n && is_space_char(s.get_char(lo))
        invariant
            lo <= n,
            n == s@.len(),
            forall|j: int| 0 <= j < lo ==> is_space(s@[j]),
        decreases n - lo,
    {
        lo = lo + 1;
    }
    let mut hi: usize = n;
    while hi > lo && is_space_char(s.get_char(hi - 1))
        invariant
            lo <= hi <= n,
            n == s@.len(),
            forall|j: int| 0 <= j < lo ==> is_space(s@[j]),
            lo == n || !is_space(s@[lo as int]),
            forall|j: int| hi <= j < n ==> is_space(s@[j]),
        decreases hi,
    {
        hi = hi - 1;
    }
    proof {
        lemma_trim_front_at(s@, lo as int);
        let t = s@.subrange(lo as int, s@.len() as int);
        assert forall|j: int| hi - lo <= j < t.len() implies is_space(t[j]) by {
            assert(t[j] == s@[j + lo]);
        }
        if hi > lo {
            assert(t[hi - lo - 1] == s@[hi - 1]);
        }
        lemma_trim_back_at(t, hi - lo);
        assert(t.subrange(0, hi - lo) =~= s@.subrange(lo as int, hi as int));
    }
    s.substring_char(lo, hi)
}

/// Whether two strings hold the same characters.
pub fn str_eq(a: &str, b: &str) -> (r: bool)
    ensures
        r == (a@ == b@),
{
    let la = a.unicode_len();
    let lb = b.unicode_len();
    if la != lb {
        return false;
    }
    let mut i: usize = 0;
    while i < la
        invariant
            i <= la,
            la == a@.len(),
            la == b@.len(),
            forall|j: int| 0 <= j < i ==> a@[j] == b@[j],
        decreases la - i,
    {
        if a.get_char(i) != b.get_char(i) {
            return false;
        }
        i = i + 1;
    }
    proof {
        assert(a@ =~= b@);
    }
    true
}

/// Whether `a` begins with `b`.
pub fn str_starts_with(a: &str, b: &str) -> (r: bool)
    ensures
        r == (a@.len() >= b@.len() && a@.subrange(0, b@.len() as int) == b@),
{
    let la = a.unicode_len();
    let lb = b.unicode_len();
    if la < lb {
        return false;
    }
    let mut i: usize = 0;
    while i < lb
        invariant
            i <= lb,
            la == a@.len(),
            lb == b@.len(),
            la >= lb,
            forall|j: int| 0 <= j < i ==> a@[j] == b@[j],
        decreases lb - i,
    {
        if a.get_char(i) != b.get_char(i) {
            proof {
                assert(a@.subrange(0, lb as int)[i as int] != b@[i as int]);
            }
            return false;
        }
        i = i + 1;
    }
    proof {
        assert(a@.subrange(0, lb as int) =~= b@);
    }
    true
}

/// The screen after the help listing.
pub open spec fn help_grid(g: Seq<char>) -> Seq<char> {
    let g1 = write_str(g, 5, 22, "Uzeyiros Shell Commands:"@);
    let g2 = write_str(g1, 5, 23, "  help      - Show this help message"@);
    let g3 = write_str(g2, 5, 24, "  clear     - Clear screen"@);
    let g4 = write_str(g3, 5, 25, "  echo      - Print message"@);
    let g5 = write_str(g4, 5, 26, "  info      - Show system info"@);
    let g6 = write_str(g5, 5, 27, "  portfolio - Portfolio main menu"@);
    let g7 = write_str(g6, 5, 28, "  about     - About me"@);
    let g8 = write_str(g7, 5, 29, "  contact   - Contact info"@);
    let g9 = write_str(g8, 5, 30, "  skills    - Technical skills"@);
    let g10 = write_str(g9, 5, 31, "  projects  - My projects"@);
    let g11 = write_str(g10, 5, 32, "  exit      - Return to main GUI"@);
    g11
}

/// The screen after echoing `msg`.
pub open spec fn echo_grid(g: Seq<char>, msg: Seq<char>) -> Seq<char> {
    write_str(write_str(g, 5, 22, "Echo: "@), 11, 22, msg)
}

/// The screen after the echo-usage hint.
pub open spec fn echo_usage_grid(g: Seq<char>) -> Seq<char> {
    write_str(g, 5, 22, "Echo usage: echo <message>"@)
}

/// The screen after the system-information lines.
pub open spec fn info_grid(g: Seq<char>) -> Seq<char> {
    let g1 = write_str(g, 5, 22, "Uzeyiros v1.1.0"@);
    let g2 = write_str(g1, 5, 23, "Operating system written in Rust"@);
    let g3 = write_str(g2, 5, 24, "x86_64 architecture"@);
    g3
}

/// The screen after the unknown-command report for `c`.
pub open spec fn unknown_grid(g: Seq<char>, c: Seq<char>) -> Seq<char> {
    let g1 = write_str(g, 5, 22, "Unknown command: '"@);
    let g2 = write_str(g1, 25, 22, c);
    let g3 = write_str(g2, 25 + c.len() as int, 22, "'"@);
    let g4 = write_str(g3, 5, 23, "Type 'help' to see available commands."@);
    g4
}

/// Handles one command line: strips its surrounding whitespace, paints the
/// command's output onto the screen, and returns how many output lines the
/// prompt must move down by.
pub fn handle_command(cga: &mut Cga, command: &str) -> (r: usize)
    requires
        old(cga).wf(),
        command@.len() + 25 <= usize::MAX,
    ensures
        final(cga).wf(),
        ({
            let c = trimmed(command@);
            let g = old(cga).cells@;
            let post = final(cga).cells@;
            if c == "help"@ {
                post == help_grid(g) && r == 10
            } else if c == "clear"@ {
                post == start_gui_grid() && r == 0
            } else if c.len() >= 5 && c.subrange(0, 5) == "echo "@ {
                post == echo_grid(g, c.subrange(5, c.len() as int)) && r == 1
            } else if c == "echo"@ {
                post == echo_usage_grid(g) && r == 1
            } else if c == "info"@ {
                post == info_grid(g) && r == 3
            } else if c == "portfolio"@ {
                post == start_portfolio_gui_grid() && r == 0
            } else if c == "about"@ {
                post == start_about_gui_grid() && r == 0
            } else if c == "contact"@ {
                post == start_contact_gui_grid() && r == 0
            } else if c == "skills"@ {
                post == start_skills_gui_grid() && r == 0
            } else if c == "projects"@ {
                post == start_projects_gui_grid() && r == 0
            } else if c == "exit"@ {
                post == start_gui_grid() && r == 0
            } else if c == ""@ {
                post == g && r == 0
            } else {
                post == unknown_grid(g, c) && r == 2
            }
        }),
{
    proof {
        reveal_strlit("echo ");
    }
    let command = str_trim(command);
    if str_eq(command, "help") {
        cga.put_string_at(5, 22, "Uzeyiros Shell Commands:");
        cga.put_string_at(5, 23, "  help      - Show this help message");
        cga.put_string_at(5, 24, "  clear     - Clear screen");
        cga.put_string_at(5, 25, "  echo      - Print message");
        cga.put_string_at(5, 26, "  info      - Show system info");
        cga.put_string_at(5, 27, "  portfolio - Portfolio main menu");
        cga.put_string_at(5, 28, "  about     - About me");
        cga.put_string_at(5, 29, "  contact   - Contact info");
        cga.put_string_at(5, 30, "  skills    - Technical skills");
        cga.put_string_at(5, 31, "  projects  - My projects");
        cga.put_string_at(5, 32, "  exit      - Return to main GUI");
        10
    } else if str_eq(command, "clear") {
        cga.blank();
        start_gui(cga);
        0
    } else if str_starts_with(command, "echo ") {
        let n = command.unicode_len();
        proof {
            assert(n >= 5);
        }
        let msg = command.substring_char(5, n);
        cga.put_string_at(5, 22, "Echo: ");
        cga.put_string_at(11, 22, msg);
        1
    } else if str_eq(command, "echo") {
        cga.put_string_at(5, 22, "Echo usage: echo <message>");
        1
    } else if str_eq(command, "info") {
        cga.put_string_at(5, 22, "Uzeyiros v1.1.0");
        cga.put_string_at(5, 23, "Operating system written in Rust");
        cga.put_string_at(5, 24, "x86_64 architecture");
        3
    } else if str_eq(command, "portfolio") {
        start_portfolio_gui(cga);
        0
    } else if str_eq(command, "about") {
        start_about_gui(cga);
        0
    } else if str_eq(command, "contact") {
        start_contact_gui(cga);
        0
    } else if str_eq(command, "skills") {
        start_skills_gui(cga);
        0
    } else if str_eq(command, "projects") {
        start_projects_gui(cga);
        0
    } else if str_eq(command, "exit") {
        start_gui(cga);
        0
    } else if str_eq(command, "") {
        0
    } else {
        let n = command.unicode_len();
        cga.put_string_at(5, 22, "Unknown command: '");
        cga.put_string_at(25, 22, command);
        cga.put_string_at(25 + n, 22, "'");
        cga.put_string_at(5, 23, "Type 'help' to see available commands.");
        2
    }
}

} // verus!
