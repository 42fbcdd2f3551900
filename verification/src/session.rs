//! Named sessions: conversation history, working context and the files touched.
use vstd::prelude::*;
use crate::text::{push_str, push_char, dec, dec_pad, dec_pad_chars, dec_chars, byte_len,
    utf8_width, join, chars_of, string_of, views, lemma_views_push, join_chars, chars_eq, lex_lt};
use crate::summary::{strs, lemma_strs_push, str_string};

verus! {

// ---------------------------------------------------------------- timestamps

/// The stamp for `secs` seconds after the Unix epoch, with every year taken as 365 days
/// and every month as 30: `YYYY-MM-DDTHH:MM:SSZ`.
pub open spec fn stamp_text(secs: u64) -> Seq<char> {
    let days = secs / 86400;
    let time = secs % 86400;
    let hours = time / 3600;
    let minutes = (time % 3600) / 60;
    let year = 1970 + days / 365;
    let day_of_year = days % 365;
    let month = if day_of_year / 30 + 1 < 12 {
        day_of_year / 30 + 1
    } else {
        12
    };
    let day = if day_of_year % 30 + 1 < 31 {
        day_of_year % 30 + 1
    } else {
        31
    };
    dec_pad(year as nat, 4) + "-"@ + dec_pad(month as nat, 2) + "-"@ + dec_pad(day as nat, 2)
        + "T"@ + dec_pad(hours as nat, 2) + ":"@ + dec_pad(minutes as nat, 2) + ":"@ + dec_pad(
        (secs % 60) as nat,
        2,
    ) + "Z"@
}

/// A timestamp as sessions record them: a stamp, or `unknown` when the clock is before
/// the epoch.
pub open spec fn is_stamp(t: Seq<char>) -> bool {
    t == "unknown"@ || exists|s: u64| t == stamp_text(s)
}

/// Reads the clock (`SystemTime::now().duration_since(UNIX_EPOCH)`) in whole seconds; no
/// claim is made about the value.
#[verifier::external_body]
fn unix_seconds() -> Option<u64> {
    std::time::SystemTime::now().duration_since(std::time::UNIX_EPOCH).ok().map(|d| d.as_secs())
}

fn push_chars(s: &mut String, v: &Vec<char>)
    ensures
        final(s)@ == old(s)@ + v@,
{
    let mut i: usize = 0;
    while i < v.len()
        invariant
            i <= v.len(),
            s@ == old(s)@ + v@.take(i as int),
        decreases v.len() - i,
    {
        push_char(s, v[i]);
        assert(old(s)@ + v@.take(i + 1) =~= (old(s)@ + v@.take(i as int)).push(v@[i as int]));
        i = i + 1;
    }
    assert(v@.take(v.len() as int) =~= v@);
}

/// The stamp for a number of seconds since the Unix epoch.
pub fn stamp(secs: u64) -> (r: String)
    ensures
        r@ == stamp_text(secs),
{
    let days = secs / 86400;
    let time = secs % 86400;
    let hours = time / 3600;
    let minutes = (time % 3600) / 60;
    let year = 1970 + days / 365;
    let day_of_year = days % 365;
    let month = if day_of_year / 30 + 1 < 12 {
        day_of_year / 30 + 1
    } else {
        12
    };
    let day = if day_of_year % 30 + 1 < 31 {
        day_of_year % 30 + 1
    } else {
        31
    };
    let mut r = String::new();
    push_chars(&mut r, &dec_pad_chars(year, 4));
    push_str(&mut r, "-");
    push_chars(&mut r, &dec_pad_chars(month, 2));
    push_str(&mut r, "-");
    push_chars(&mut r, &dec_pad_chars(day, 2));
    push_str(&mut r, "T");
    push_chars(&mut r, &dec_pad_chars(hours, 2));
    push_str(&mut r, ":");
    push_chars(&mut r, &dec_pad_chars(minutes, 2));
    push_str(&mut r, ":");
    push_chars(&mut r, &dec_pad_chars(secs % 60, 2));
    push_str(&mut r, "Z");
    r
}

/// The current time as a session timestamp.
pub fn chrono_now() -> (r: String)
    ensures
        is_stamp(r@),
{
    match unix_seconds() {
        Some(secs) => stamp(secs),
        None => str_string("unknown"),
    }
}

// ---------------------------------------------------------------- messages and sessions

/// A single message in a session.
#[derive(Debug, Clone)]
pub struct SessionMessage {
    pub role: String,
    pub content: String,
    pub timestamp: String,
}

pub struct MessageView {
    pub role: Seq<char>,
    pub content: Seq<char>,
    pub timestamp: Seq<char>,
}

impl View for SessionMessage {
    type V = MessageView;

    open spec fn view(&self) -> MessageView {
        MessageView { role: self.role@, content: self.content@, timestamp: self.timestamp@ }
    }
}

pub open spec fn mviews(v: Seq<SessionMessage>) -> Seq<MessageView> {
    v.map_values(|m: SessionMessage| m@)
}

/// How many messages a session keeps.
pub const MAX_MESSAGES: usize = 200;

/// A named session with conversation history and working context.
#[derive(Debug, Clone)]
pub struct Session {
    pub name: String,
    pub created_at: String,
    pub updated_at: String,
    pub messages: std::collections::VecDeque<SessionMessage>,
    /// What the user was working on (a short context line).
    pub context: String,
    /// Files the user touched during this session.
    pub files_touched: Vec<String>,
    /// The last recap banner shown.
    pub last_recap: String,
}

pub struct SessionView {
    pub name: Seq<char>,
    pub created_at: Seq<char>,
    pub updated_at: Seq<char>,
    pub messages: Seq<MessageView>,
    pub context: Seq<char>,
    pub files_touched: Seq<Seq<char>>,
    pub last_recap: Seq<char>,
}

impl View for Session {
    type V = SessionView;

    open spec fn view(&self) -> SessionView {
        SessionView {
            name: self.name@,
            created_at: self.created_at@,
            updated_at: self.updated_at@,
            messages: mviews(self.messages@),
            context: self.context@,
            files_touched: strs(self.files_touched@),
            last_recap: self.last_recap@,
        }
    }
}

/// No file occurs twice.
pub open spec fn no_repeats(f: Seq<Seq<char>>) -> bool {
    forall|a: int, b: int| 0 <= a < b < f.len() ==> f[a] != f[b]
}

/// The messages kept before one more arrives: all but the oldest when the session is full.
pub open spec fn kept_before_push(m: Seq<MessageView>) -> Seq<MessageView> {
    if m.len() >= 200 {
        m.drop_first()
    } else {
        m
    }
}

/// `b` is `a` with one more message from `role`, stamped with the time it arrived; a full
/// session forgets its oldest message first.
pub open spec fn recorded(a: SessionView, b: SessionView, role: Seq<char>, content: Seq<char>) -> bool {
    &&& b.messages.drop_last() == kept_before_push(a.messages)
    &&& b.messages.len() == kept_before_push(a.messages).len() + 1
    &&& b.messages.last().role == role
    &&& b.messages.last().content == content
    &&& is_stamp(b.messages.last().timestamp)
    &&& is_stamp(b.updated_at)
    &&& b.name == a.name
    &&& b.created_at == a.created_at
    &&& b.context == a.context
    &&& b.files_touched == a.files_touched
    &&& b.last_recap == a.last_recap
}

/// `b` is `a` working on `context` instead.
pub open spec fn context_set(a: SessionView, b: SessionView, context: Seq<char>) -> bool {
    &&& b.context == context
    &&& is_stamp(b.updated_at)
    &&& b.name == a.name
    &&& b.created_at == a.created_at
    &&& b.messages == a.messages
    &&& b.files_touched == a.files_touched
    &&& b.last_recap == a.last_recap
}

/// A session holds at most two hundred messages, and recording one more keeps it so.
pub proof fn lemma_messages_bounded(a: SessionView, b: SessionView, role: Seq<char>, content: Seq<char>)
    requires
        recorded(a, b, role, content),
        a.messages.len() <= 200,
    ensures
        b.messages.len() <= 200,
{
}

/// The files of a session after `path` is touched.
pub open spec fn touched(f: Seq<Seq<char>>, path: Seq<char>) -> Seq<Seq<char>> {
    if f.contains(path) {
        f
    } else {
        f.push(path)
    }
}

/// No file is noted twice: touching a file keeps the files distinct.
pub proof fn lemma_touched_distinct(f: Seq<Seq<char>>, path: Seq<char>)
    requires
        no_repeats(f),
    ensures
        no_repeats(touched(f, path)),
{
    if !f.contains(path) {
        let g = f.push(path);
        assert forall|a: int, b: int| 0 <= a < b < g.len() implies g[a] != g[b] by {
            if b == f.len() {
                assert(g[a] == f[a]);
            }
        }
    }
}

impl Session {
    /// A new, empty session.
    pub fn new(name: &str) -> (s: Self)
        ensures
            s@.name == name@,
            s@.created_at == s@.updated_at,
            is_stamp(s@.created_at),
            s@.messages.len() == 0,
            s@.context.len() == 0,
            s@.files_touched.len() == 0,
            s@.last_recap.len() == 0,
    {
        let now = chrono_now();
        let created_at = now.clone();
        Session {
            name: str_string(name),
            created_at,
            updated_at: now,
            messages: std::collections::VecDeque::with_capacity(MAX_MESSAGES),
            context: String::new(),
            files_touched: Vec::new(),
            last_recap: String::new(),
        }
    }

    /// Records a message; a full session (200 messages) forgets its oldest one first.
    pub fn add_message(&mut self, role: &str, content: &str)
        ensures
            recorded(old(self)@, final(self)@, role@, content@),
    {
        if self.messages.len() >= MAX_MESSAGES {
            self.messages.pop_front();
        }
        let ghost kept = mviews(self.messages@);
        assert(kept =~= kept_before_push(mviews(old(self).messages@)));
        let m = SessionMessage {
            role: str_string(role),
            content: str_string(content),
            timestamp: chrono_now(),
        };
        self.messages.push_back(m);
        assert(mviews(self.messages@) =~= kept.push(m@));
        assert(mviews(self.messages@).drop_last() =~= kept);
        self.updated_at = chrono_now();
    }

    /// Sets what the user is working on.
    pub fn set_context(&mut self, context: &str)
        ensures
            context_set(old(self)@, final(self)@, context@),
    {
        self.context = str_string(context);
        self.updated_at = chrono_now();
    }

    /// Notes that the user touched a file; a file already noted is not added again.
    pub fn touch_file(&mut self, path: &str)
        ensures
            final(self)@.files_touched == touched(old(self)@.files_touched, path@),
            is_stamp(final(self)@.updated_at),
            final(self)@.name == old(self)@.name,
            final(self)@.created_at == old(self)@.created_at,
            final(self)@.messages == old(self)@.messages,
            final(self)@.context == old(self)@.context,
            final(self)@.last_recap == old(self)@.last_recap,
    {
        broadcast use lemma_strs_push;

        let p = chars_of(path);
        let mut found = false;
        let mut i: usize = 0;
        while i < self.files_touched.len()
            invariant
                i <= self.files_touched.len(),
                p@ == path@,
                found == exists|j: int| 0 <= j < i && self.files_touched@[j]@ == path@,
            decreases self.files_touched.len() - i,
        {
            let f = chars_of(self.files_touched[i].as_str());
            if chars_eq(&f, &p) {
                found = true;
            }
            i = i + 1;
        }
        proof {
            let ft = strs(self.files_touched@);
            if found {
                let j = choose|j: int| 0 <= j < i && self.files_touched@[j]@ == path@;
                assert(ft[j] == path@);
            } else {
                assert forall|j: int| 0 <= j < ft.len() implies ft[j] != path@ by {
                    assert(ft[j] == self.files_touched@[j]@);
                }
            }
        }
        if !found {
            self.files_touched.push(str_string(path));
        }
        self.updated_at = chrono_now();
    }
}


// ---------------------------------------------------------------- recaps

/// `s` has a char boundary `n` bytes in.
pub open spec fn boundary_at(s: Seq<char>, n: nat) -> bool {
    exists|k: int| 0 <= k <= s.len() && byte_len(s.take(k)) == n
}

/// `s` can be cut at `n` bytes: it is no longer, or `n` falls on a char boundary.
pub open spec fn cuttable(s: Seq<char>, n: nat) -> bool {
    byte_len(s) <= n || boundary_at(s, n)
}

/// `s` cut to its first `n` bytes and marked with `…` if longer.
pub open spec fn cut(s: Seq<char>, n: nat) -> Seq<char> {
    if byte_len(s) <= n {
        s
    } else {
        s.take(choose|k: int| 0 <= k <= s.len() && byte_len(s.take(k)) == n) + "…"@
    }
}

pub proof fn lemma_byte_len_step(s: Seq<char>, k: int)
    requires
        0 <= k < s.len(),
    ensures
        byte_len(s.take(k + 1)) == byte_len(s.take(k)) + utf8_width(s[k]),
        utf8_width(s[k]) >= 1,
{
    assert(s.take(k + 1).drop_last() =~= s.take(k));
}

pub proof fn lemma_byte_len_strict(s: Seq<char>, j: int, k: int)
    requires
        0 <= j < k <= s.len(),
    ensures
        byte_len(s.take(j)) < byte_len(s.take(k)),
    decreases k - j,
{
    lemma_byte_len_step(s, k - 1);
    if j < k - 1 {
        lemma_byte_len_strict(s, j, k - 1);
    }
}

/// The index of the char that starts `b` bytes into `s`.
pub open spec fn char_index(s: Seq<char>, b: nat) -> int {
    choose|k: int| 0 <= k <= s.len() && byte_len(s.take(k)) == b
}

/// The index of the char that starts `b` bytes into `s`.
pub fn char_index_at(s: &Vec<char>, b: usize) -> (k: usize)
    requires
        boundary_at(s@, b as nat),
    ensures
        k as int == char_index(s@, b as nat),
        k <= s.len(),
        byte_len(s@.take(k as int)) == b,
{
    let mut acc: usize = 0;
    let mut i: usize = 0;
    assert(s@.take(0) =~= Seq::<char>::empty());
    let ghost kk = char_index(s@, b as nat);
    while i < s.len() && acc < b
        invariant
            i <= s.len(),
            acc == byte_len(s@.take(i as int)),
            kk == char_index(s@, b as nat),
            0 <= kk <= s.len(),
            byte_len(s@.take(kk)) == b,
            i <= kk,
        decreases s.len() - i,
    {
        proof {
            lemma_byte_len_step(s@, i as int);
            if kk == i {
                assert(false);
            }
            if kk > i + 1 {
                lemma_byte_len_strict(s@, i + 1, kk);
            }
        }
        acc = acc + crate::text::utf8_width_exec(s[i]);
        i = i + 1;
    }
    proof {
        if kk > i {
            lemma_byte_len_strict(s@, i as int, kk);
        }
    }
    i
}

/// The string cut to `max_len` bytes, with `…` when it was longer.
pub fn truncate(s: &str, max_len: usize) -> (r: String)
    requires
        cuttable(s@, max_len as nat),
    ensures
        r@ == cut(s@, max_len as nat),
{
    let v = chars_of(s);
    let mut acc: usize = 0;
    let mut i: usize = 0;
    assert(v@.take(0) =~= Seq::<char>::empty());
    while i < v.len() && crate::text::utf8_width_exec(v[i]) <= max_len - acc
        invariant
            i <= v.len(),
            acc == byte_len(v@.take(i as int)),
            acc <= max_len,
        decreases v.len() - i,
    {
        proof {
            lemma_byte_len_step(v@, i as int);
        }
        acc = acc + crate::text::utf8_width_exec(v[i]);
        i = i + 1;
    }
    assert(v@.take(v.len() as int) =~= v@);
    if i == v.len() {
        return str_string(s);
    }
    proof {
        lemma_byte_len_step(v@, i as int);
        crate::text::lemma_byte_len_mono(v@, i + 1);
        assert(byte_len(v@) > max_len);
        let k = choose|k: int| 0 <= k <= v@.len() && byte_len(v@.take(k)) == max_len;
        if k > i + 1 {
            lemma_byte_len_strict(v@, i as int + 1, k);
        } else if k < i as int {
            lemma_byte_len_strict(v@, k, i as int);
        }
        assert(k == i as int);
    }
    let mut r = string_of(&v.as_slice()[0..i]);
    push_str(&mut r, "…");
    r
}


/// Whether `s` can be cut at `n` bytes.
pub fn can_cut(s: &str, n: usize) -> (r: bool)
    ensures
        r == cuttable(s@, n as nat),
{
    let v = chars_of(s);
    let mut acc: usize = 0;
    let mut i: usize = 0;
    assert(v@.take(0) =~= Seq::<char>::empty());
    while i < v.len()
        invariant
            i <= v.len(),
            v@ == s@,
            acc == byte_len(v@.take(i as int)),
            acc <= n,
            forall|k: int| 0 <= k < i ==> byte_len(#[trigger] v@.take(k)) < n,
        decreases v.len() - i,
    {
        if acc == n {
            return true;
        }
        let w = crate::text::utf8_width_exec(v[i]);
        proof {
            lemma_byte_len_step(v@, i as int);
        }
        if w > n - acc {
            proof {
                crate::text::lemma_byte_len_mono(v@, i + 1);
                assert(v@.take(v.len() as int) =~= v@);
                assert forall|k: int| 0 <= k <= v@.len() implies byte_len(#[trigger] v@.take(k)) != n by {
                    if k > i + 1 {
                        lemma_byte_len_strict(v@, i + 1, k);
                    }
                }
            }
            return false;
        }
        acc = acc + w;
        i = i + 1;
    }
    assert(v@.take(v.len() as int) =~= v@);
    true
}

impl Session {
    /// Whether a recap can be made: every recent message can be cut at eighty bytes.
    pub fn can_recap(&self) -> (r: bool)
        ensures
            r == recent_cuttable(self@),
    {
        let ghost v = self@;
        let m = self.messages.len();
        let start = if m > 5 {
            m - 5
        } else {
            0
        };
        let ghost rec = recent(v.messages);
        let mut j = start;
        while j < m
            invariant
                v == self@,
                m == self.messages@.len(),
                start <= j <= m,
                start == if m > 5 {
                    m - 5
                } else {
                    0
                },
                rec == recent(v.messages),
                forall|i: int| 0 <= i < j - start ==> cuttable(#[trigger] rec[i].content, 80),
            decreases m - j,
        {
            assert(rec[j - start] == v.messages[j as int]);
            assert(v.messages[j as int] == self.messages@[j as int]@);
            if !can_cut(self.messages[j].content.as_str(), 80) {
                assert(!cuttable(rec[j - start].content, 80));
                return false;
            }
            j = j + 1;
        }
        true
    }
}

/// The files of a recap: all when at most three, else the first three and how many more.
pub open spec fn files_text(f: Seq<Seq<char>>) -> Seq<char> {
    if f.len() <= 3 {
        join(f, ", "@)
    } else {
        join(f.take(3), ", "@) + " and "@ + dec((f.len() - 3) as nat) + " more"@
    }
}

/// The last five messages (all of them when fewer), oldest first.
pub open spec fn recent(m: Seq<MessageView>) -> Seq<MessageView> {
    if m.len() > 5 {
        m.skip(m.len() - 5)
    } else {
        m
    }
}

/// A message in a recap: its role in brackets and its text cut to eighty bytes.
pub open spec fn message_line(m: MessageView) -> Seq<char> {
    "["@ + m.role + "] "@ + cut(m.content, 80)
}

/// The parts of a recap: the context, the files, the recent messages, each if present.
pub open spec fn recap_parts(v: SessionView) -> Seq<Seq<char>> {
    (if v.context.len() > 0 {
        seq!["Working on: "@ + v.context]
    } else {
        seq![]
    }) + (if v.files_touched.len() > 0 {
        seq!["Files: "@ + files_text(v.files_touched)]
    } else {
        seq![]
    }) + (if v.messages.len() > 0 {
        seq!["Recent: "@ + join(recent(v.messages).map_values(|m: MessageView| message_line(m)), " | "@)]
    } else {
        seq![]
    })
}

/// The recap of a session: its parts joined by ` — `, or a note that nothing happened yet.
pub open spec fn recap_text(v: SessionView) -> Seq<char> {
    let p = recap_parts(v);
    if p.len() == 0 {
        "No session activity yet."@
    } else {
        join(p, " — "@)
    }
}

/// Every recent message can be cut at eighty bytes.
pub open spec fn recent_cuttable(v: SessionView) -> bool {
    forall|i: int| 0 <= i < recent(v.messages).len() ==> cuttable(#[trigger] recent(v.messages)[i].content, 80)
}

/// The pieces one after the other.
pub open spec fn concat(parts: Seq<Seq<char>>) -> Seq<char>
    decreases parts.len(),
{
    if parts.len() == 0 {
        seq![]
    } else {
        concat(parts.drop_last()) + parts.last()
    }
}

/// A file as a Markdown list item.
pub open spec fn file_item(f: Seq<char>) -> Seq<char> {
    "- `"@ + f + "`\n"@
}

/// A message as a Markdown list item.
pub open spec fn message_item(m: MessageView) -> Seq<char> {
    "- **["@ + m.timestamp + "]** "@ + m.role + ": "@ + m.content + "\n"@
}

/// The Markdown export of a session.
pub open spec fn markdown_text(v: SessionView) -> Seq<char> {
    "# Session: "@ + v.name + "\n\n**Created:** "@ + v.created_at + "  \n**Updated:** "@ + v.updated_at
        + "  \n"@ + (if v.context.len() > 0 {
        "\n**Context:** "@ + v.context + "\n"@
    } else {
        seq![]
    }) + (if v.files_touched.len() > 0 {
        "\n## Files\n"@ + concat(v.files_touched.map_values(|f: Seq<char>| file_item(f)))
    } else {
        seq![]
    }) + "\n## Messages\n"@ + concat(v.messages.map_values(|m: MessageView| message_item(m)))
}

fn chars_of_strings(v: &Vec<String>) -> (out: Vec<Vec<char>>)
    ensures
        views(out@) == strs(v@),
{
    broadcast use lemma_views_push;

    let mut out: Vec<Vec<char>> = Vec::new();
    let mut i: usize = 0;
    while i < v.len()
        invariant
            i <= v.len(),
            views(out@) == strs(v@).take(i as int),
        decreases v.len() - i,
    {
        let c = chars_of(v[i].as_str());
        out.push(c);
        assert(strs(v@).take(i + 1) =~= strs(v@).take(i as int).push(c@));
        i = i + 1;
    }
    assert(strs(v@).take(v.len() as int) =~= strs(v@));
    out
}

impl Session {
    /// A recap of where the user left off: the context, the files touched and the last five
    /// messages (each cut to eighty bytes).
    pub fn recap(&self) -> (r: String)
        requires
            recent_cuttable(self@),
        ensures
            r@ == recap_text(self@),
    {
        broadcast use lemma_views_push;

        let ghost v = self@;
        let mut parts: Vec<Vec<char>> = Vec::new();
        let ctx = chars_of(self.context.as_str());
        if ctx.len() > 0 {
            let mut p: Vec<char> = Vec::new();
            crate::text::extend_str(&mut p, "Working on: ");
            crate::text::extend_chars(&mut p, &ctx);
            parts.push(p);
        }
        let ghost p1 = views(parts@);
        assert(p1 =~= if v.context.len() > 0 {
            seq!["Working on: "@ + v.context]
        } else {
            seq![]
        });
        let n = self.files_touched.len();
        if n > 0 {
            let files = chars_of_strings(&self.files_touched);
            assert(views(files@).len() == files@.len());
            assert(strs(self.files_touched@).len() == n);
            let mut p: Vec<char> = Vec::new();
            crate::text::extend_str(&mut p, "Files: ");
            if n <= 3 {
                let j = join_chars(&files, ", ");
                crate::text::extend_chars(&mut p, &j);
            } else {
                let mut first: Vec<Vec<char>> = Vec::new();
                let mut i: usize = 0;
                while i < 3
                    invariant
                        i <= 3 < files.len(),
                        views(first@) == views(files@).take(i as int),
                    decreases 3 - i,
                {
                    let c = crate::text::slice_chars(&files[i], 0, files[i].len());
                    assert(files@[i as int]@.subrange(0, files@[i as int]@.len() as int) =~= files@[i as int]@);
                    first.push(c);
                    assert(views(files@).take(i + 1) =~= views(files@).take(i as int).push(c@));
                    i = i + 1;
                }
                let j = join_chars(&first, ", ");
                crate::text::extend_chars(&mut p, &j);
                crate::text::extend_str(&mut p, " and ");
                let d = dec_chars((n - 3) as u64);
                crate::text::extend_chars(&mut p, &d);
                crate::text::extend_str(&mut p, " more");
            }
            assert(p@ =~= "Files: "@ + files_text(v.files_touched));
            parts.push(p);
        }
        let ghost p2 = views(parts@);
        assert(p2 =~= p1 + if v.files_touched.len() > 0 {
            seq!["Files: "@ + files_text(v.files_touched)]
        } else {
            seq![]
        });
        let m = self.messages.len();
        if m > 0 {
            let start = if m > 5 {
                m - 5
            } else {
                0
            };
            let ghost rec = recent(v.messages);
            let ghost ml = rec.map_values(|x: MessageView| message_line(x));
            let mut lines: Vec<Vec<char>> = Vec::new();
            let mut j = start;
            while j < m
                invariant
                    v == self@,
                    m == self.messages@.len(),
                    start <= j <= m,
                    start == if m > 5 {
                        m - 5
                    } else {
                        0
                    },
                    rec == recent(v.messages),
                    ml == rec.map_values(|x: MessageView| message_line(x)),
                    recent_cuttable(v),
                    views(lines@) == ml.take(j - start),
                decreases m - j,
            {
                let msg = &self.messages[j];
                assert(rec[j - start] == v.messages[j as int]);
                assert(cuttable(rec[j - start].content, 80));
                let mut l: Vec<char> = Vec::new();
                crate::text::extend_str(&mut l, "[");
                crate::text::extend_str(&mut l, msg.role.as_str());
                crate::text::extend_str(&mut l, "] ");
                let t = truncate(msg.content.as_str(), 80);
                crate::text::extend_str(&mut l, t.as_str());
                lines.push(l);
                assert(ml.take(j + 1 - start) =~= ml.take(j - start).push(l@));
                j = j + 1;
            }
            assert(ml.take(m - start) =~= ml);
            let mut p: Vec<char> = Vec::new();
            crate::text::extend_str(&mut p, "Recent: ");
            let jl = join_chars(&lines, " | ");
            crate::text::extend_chars(&mut p, &jl);
            parts.push(p);
        }
        assert(views(parts@) =~= recap_parts(v));
        if parts.len() == 0 {
            str_string("No session activity yet.")
        } else {
            let j = join_chars(&parts, " — ");
            string_of(j.as_slice())
        }
    }

    /// The session as Markdown: name and dates, the context, the files and every message.
    pub fn to_markdown(&self) -> (r: String)
        ensures
            r@ == markdown_text(self@),
    {
        let ghost v = self@;
        let mut md = String::new();
        push_str(&mut md, "# Session: ");
        push_str(&mut md, self.name.as_str());
        push_str(&mut md, "\n\n**Created:** ");
        push_str(&mut md, self.created_at.as_str());
        push_str(&mut md, "  \n**Updated:** ");
        push_str(&mut md, self.updated_at.as_str());
        push_str(&mut md, "  \n");
        let ghost head = md@;
        if chars_of(self.context.as_str()).len() > 0 {
            push_str(&mut md, "\n**Context:** ");
            push_str(&mut md, self.context.as_str());
            push_str(&mut md, "\n");
        }
        let ghost with_ctx = md@;
        assert(with_ctx =~= head + if v.context.len() > 0 {
            "\n**Context:** "@ + v.context + "\n"@
        } else {
            seq![]
        });
        if self.files_touched.len() > 0 {
            push_str(&mut md, "\n## Files\n");
            let ghost fi = v.files_touched.map_values(|f: Seq<char>| file_item(f));
            let ghost start = md@;
            let mut i: usize = 0;
            while i < self.files_touched.len()
                invariant
                    v == self@,
                    i <= self.files_touched.len(),
                    fi == v.files_touched.map_values(|f: Seq<char>| file_item(f)),
                    md@ == start + concat(fi.take(i as int)),
                decreases self.files_touched.len() - i,
            {
                push_str(&mut md, "- `");
                push_str(&mut md, self.files_touched[i].as_str());
                push_str(&mut md, "`\n");
                assert(fi.take(i + 1).drop_last() =~= fi.take(i as int));
                assert(md@ =~= start + concat(fi.take(i + 1)));
                i = i + 1;
            }
            assert(fi.take(self.files_touched.len() as int) =~= fi);
        }
        let ghost with_files = md@;
        assert(with_files =~= with_ctx + if v.files_touched.len() > 0 {
            "\n## Files\n"@ + concat(v.files_touched.map_values(|f: Seq<char>| file_item(f)))
        } else {
            seq![]
        });
        push_str(&mut md, "\n## Messages\n");
        let ghost mi = v.messages.map_values(|m: MessageView| message_item(m));
        let ghost start = md@;
        let mut i: usize = 0;
        while i < self.messages.len()
            invariant
                v == self@,
                i <= self.messages@.len(),
                mi == v.messages.map_values(|m: MessageView| message_item(m)),
                md@ == start + concat(mi.take(i as int)),
            decreases self.messages@.len() - i,
        {
            let msg = &self.messages[i];
            push_str(&mut md, "- **[");
            push_str(&mut md, msg.timestamp.as_str());
            push_str(&mut md, "]** ");
            push_str(&mut md, msg.role.as_str());
            push_str(&mut md, ": ");
            push_str(&mut md, msg.content.as_str());
            push_str(&mut md, "\n");
            assert(mi.take(i + 1).drop_last() =~= mi.take(i as int));
            assert(mi[i as int] == message_item(v.messages[i as int]));
            assert(md@ =~= start + concat(mi.take(i + 1)));
            i = i + 1;
        }
        assert(mi.take(self.messages@.len() as int) =~= mi);
        assert(md@ =~= markdown_text(v));
        md
    }
}


// ---------------------------------------------------------------- the store

/// The session being worked on, and the directory where sessions are saved.
pub struct SessionStore {
    dir: String,
    current: Session,
}

impl SessionStore {
    /// The session being worked on.
    pub closed spec fn session(&self) -> Session {
        self.current
    }

    /// The directory where sessions are saved.
    pub closed spec fn directory(&self) -> Seq<char> {
        self.dir@
    }

    /// A store over a directory, working on a session already loaded or made.
    pub fn from_parts(dir: String, current: Session) -> (s: Self)
        ensures
            s.directory() == dir@,
            s.session() == current,
    {
        SessionStore { dir, current }
    }

    /// The directory where sessions are saved.
    pub fn dir(&self) -> (d: &str)
        ensures
            d@ == self.directory(),
    {
        self.dir.as_str()
    }

    /// The session being worked on.
    pub fn current(&self) -> (s: &Session)
        ensures
            *s == self.session(),
    {
        &self.current
    }

    /// The session being worked on, for changes.
    pub fn current_mut(&mut self) -> (s: &mut Session)
        ensures
            *s == old(self).session(),
            final(self).session() == *final(s),
            final(self).directory() == old(self).directory(),
    {
        &mut self.current
    }

    /// The file name the session is saved under: its name with `.json`.
    pub fn session_file_name(&self) -> (r: String)
        ensures
            r@ == self.session()@.name + ".json"@,
    {
        let mut r = str_string(self.current.name.as_str());
        push_str(&mut r, ".json");
        r
    }
}

// ---------------------------------------------------------------- listing and picking

/// Names in order: no name orders before the one ahead of it.
pub open spec fn names_sorted(v: Seq<Seq<char>>) -> bool {
    forall|i: int, j: int| 0 <= i < j < v.len() ==> !lex_lt(#[trigger] v[j], #[trigger] v[i])
}

/// The names in order (`sort` on strings).
pub fn sort_names(names: &Vec<String>) -> (out: Vec<String>)
    ensures
        strs(out@).to_multiset() == strs(names@).to_multiset(),
        names_sorted(strs(out@)),
{
    let mut out: Vec<String> = Vec::new();
    let mut i: usize = 0;
    assert(strs(names@).take(0) =~= Seq::<Seq<char>>::empty());
    assert(strs(out@) =~= Seq::<Seq<char>>::empty());
    while i < names.len()
        invariant
            i <= names.len(),
            strs(out@).to_multiset() == strs(names@).take(i as int).to_multiset(),
            names_sorted(strs(out@)),
        decreases names.len() - i,
    {
        let x = chars_of(names[i].as_str());
        let ghost o = strs(out@);
        let mut k: usize = 0;
        while k < out.len() && !crate::text::lex_less(&x, &chars_of(out[k].as_str()))
            invariant
                k <= out.len(),
                i < names.len(),
                o == strs(out@),
                x@ == names@[i as int]@,
                forall|j: int| 0 <= j < k ==> !lex_lt(x@, #[trigger] o[j]),
            decreases out.len() - k,
        {
            k = k + 1;
        }
        proof {
            assert forall|a: int, b: int| 0 <= a < b < o.len() + 1 implies !lex_lt(
                #[trigger] o.insert(k as int, x@)[b],
                #[trigger] o.insert(k as int, x@)[a],
            ) by {
                let n = o.insert(k as int, x@);
                if b == k {
                    assert(n[a] == o[a]);
                } else if a == k {
                    assert(n[b] == o[b - 1]);
                    assert(lex_lt(x@, o[k as int]));
                    if o[k as int] != o[b - 1] {
                        crate::text::lemma_lex_total(o[k as int], o[b - 1]);
                        crate::text::lemma_lex_transitive(x@, o[k as int], o[b - 1]);
                    }
                    crate::text::lemma_lex_asymmetric(x@, o[b - 1]);
                } else if a < k && b < k {
                    assert(n[a] == o[a] && n[b] == o[b]);
                } else if a < k && b > k {
                    assert(n[a] == o[a] && n[b] == o[b - 1]);
                } else {
                    assert(n[a] == o[a - 1] && n[b] == o[b - 1]);
                }
            }
        }
        out.insert(k, str_string(names[i].as_str()));
        assert(strs(out@) =~= o.insert(k as int, x@));
        assert(strs(names@).take(i + 1) =~= strs(names@).take(i as int).push(names@[i as int]@));
        proof {
            vstd::seq_lib::to_multiset_insert(o, k as int, x@);
            vstd::seq_lib::to_multiset_build(strs(names@).take(i as int), x@);
        }
        i = i + 1;
    }
    assert(strs(names@).take(names.len() as int) =~= strs(names@));
    out
}

/// Of the modification times of the saved sessions, the newest; the first of equals.
pub fn newest_index(times: &Vec<i128>) -> (r: Option<usize>)
    ensures
        times.len() == 0 <==> r is None,
        r matches Some(i) ==> i < times.len()
            && (forall|j: int| 0 <= j < times.len() ==> times@[j] <= times@[i as int])
            && (forall|j: int| 0 <= j < i ==> times@[j] < times@[i as int]),
{
    if times.len() == 0 {
        return None;
    }
    let mut best: usize = 0;
    let mut j: usize = 1;
    while j < times.len()
        invariant
            1 <= j <= times.len(),
            best < j,
            forall|k: int| 0 <= k < j ==> times@[k] <= times@[best as int],
            forall|k: int| 0 <= k < best ==> times@[k] < times@[best as int],
        decreases times.len() - j,
    {
        if times[j] > times[best] {
            best = j;
        }
        j = j + 1;
    }
    Some(best)
}

/// A session with one more message, all else the same.
pub open spec fn with_message(v: SessionView, m: MessageView) -> SessionView {
    SessionView { messages: v.messages.push(m), ..v }
}

/// The Markdown export ends with its Messages heading when there are no messages, and each
/// further message appends exactly one line `- **[timestamp]** role: content` to it, so
/// the export lists every message once, in order.
pub proof fn lemma_markdown_lists_every_message(v: SessionView, m: MessageView)
    ensures
        v.messages.len() == 0 ==> markdown_text(v).len() >= 13 && markdown_text(v).skip(
            markdown_text(v).len() - 13,
        ) == "\n## Messages\n"@,
        markdown_text(with_message(v, m)) == markdown_text(v) + ("- **["@ + m.timestamp + "]** "@
            + m.role + ": "@ + m.content + "\n"@),
{
    let w = with_message(v, m);
    let f = |x: MessageView| message_item(x);
    assert(w.messages.map_values(f) =~= v.messages.map_values(f).push(message_item(m)));
    assert(v.messages.map_values(f) =~= v.messages.map_values(|x: MessageView| message_item(x)));
    assert(w.messages.map_values(f) =~= w.messages.map_values(|x: MessageView| message_item(x)));
    let c = v.messages.map_values(f);
    assert(concat(c.push(message_item(m))) == concat(c) + message_item(m)) by {
        assert(c.push(message_item(m)).drop_last() =~= c);
    }
    assert(markdown_text(w) =~= markdown_text(v) + message_item(m));
    if v.messages.len() == 0 {
        reveal_strlit("\n## Messages\n");
        assert(c =~= Seq::<Seq<char>>::empty());
        assert(concat(c) =~= Seq::<char>::empty());
        let t = markdown_text(v);
        assert(t.skip(t.len() - 13) =~= "\n## Messages\n"@);
    }
}

/// With one to three touched files, the recap names all of them in order: after the
/// context part (when there is a context) it reads `Files: ` and the files joined by `, `,
/// and then ends, or goes on with ` — Recent: ` when there are messages.
pub proof fn lemma_recap_names_few_files(v: SessionView)
    requires
        1 <= v.files_touched.len() <= 3,
    ensures
        ({
            let pre = if v.context.len() > 0 {
                "Working on: "@ + v.context + " — "@
            } else {
                seq![]
            };
            let files = "Files: "@ + join(v.files_touched, ", "@);
            let r = recap_text(v);
            &&& (pre + files).len() <= r.len()
            &&& r.take((pre + files).len() as int) == pre + files
            &&& v.messages.len() == 0 ==> r == pre + files
            &&& v.messages.len() > 0 ==> r.skip((pre + files).len() as int).take(11)
                == " — Recent: "@
        }),
{
    reveal_strlit(" — ");
    reveal_strlit(" — Recent: ");
    reveal_strlit("Recent: ");
    let pre = if v.context.len() > 0 {
        "Working on: "@ + v.context + " — "@
    } else {
        seq![]
    };
    let files = "Files: "@ + join(v.files_touched, ", "@);
    assert(files_text(v.files_touched) == join(v.files_touched, ", "@));
    let ctx: Seq<Seq<char>> = if v.context.len() > 0 {
        seq!["Working on: "@ + v.context]
    } else {
        seq![]
    };
    let rest: Seq<Seq<char>> = if v.messages.len() > 0 {
        seq!["Recent: "@ + join(recent(v.messages).map_values(|m: MessageView| message_line(m)), " | "@)]
    } else {
        seq![]
    };
    let parts = recap_parts(v);
    assert(parts =~= ctx + seq![files] + rest);
    let sep = " — "@;
    let r = recap_text(v);
    if v.context.len() > 0 {
        if v.messages.len() > 0 {
            assert(parts.len() == 3);
            let pd = parts.drop_last();
            assert(pd.len() == 2);
            assert(pd.drop_last() =~= seq![parts[0]]);
            assert(join(pd.drop_last(), sep) == parts[0]);
            assert(pd.last() == parts[1]);
            assert(join(pd, sep) == parts[0] + sep + parts[1]);
            assert(r == join(parts, sep));
            assert(r == parts[0] + sep + parts[1] + sep + parts[2]);
            assert(r =~= (pre + files) + (" — Recent: "@ + join(
                recent(v.messages).map_values(|m: MessageView| message_line(m)),
                " | "@,
            )));
        } else {
            assert(parts.len() == 2);
            assert(parts.drop_last() =~= seq![parts[0]]);
            assert(join(parts.drop_last(), sep) == parts[0]);
            assert(r == join(parts, sep));
            assert(parts.last() == parts[1]);
            assert(join(parts, sep) == join(parts.drop_last(), sep) + sep + parts.last());
            assert(r == parts[0] + sep + parts[1]);
            assert(r =~= pre + files);
        }
    } else {
        if v.messages.len() > 0 {
            assert(parts.len() == 2);
            assert(parts.drop_last() =~= seq![parts[0]]);
            assert(join(parts.drop_last(), sep) == parts[0]);
            assert(parts.last() == parts[1]);
            assert(r == join(parts, sep));
            assert(r == parts[0] + sep + parts[1]);
            assert(r =~= (pre + files) + (" — Recent: "@ + join(
                recent(v.messages).map_values(|m: MessageView| message_line(m)),
                " | "@,
            )));
        } else {
            assert(parts.len() == 1);
            assert(r =~= pre + files);
        }
    }
}

} // verus!
