//! The command-line prompt: a line of text edited at a cursor, which may
//! instead be showing a message until the next keystroke.
use vstd::prelude::*;

verus! {

/// ASCII whitespace, as `split_ascii_whitespace` knows it.
pub open spec fn is_blank(c: char) -> bool {
    c == ' ' || c == '\t' || c == '\n' || c == '\r' || c == '\x0C'
}

/// Scanning `s` left to right: the words finished so far and the word in progress.
pub open spec fn split_words(s: Seq<char>) -> (Seq<Seq<char>>, Seq<char>)
    decreases s.len(),
{
    if s.len() == 0 {
        (Seq::empty(), Seq::empty())
    } else {
        let (done, cur) = split_words(s.drop_last());
        if is_blank(s.last()) {
            if cur.len() > 0 {
                (done.push(cur), Seq::empty())
            } else {
                (done, cur)
            }
        } else {
            (done, cur.push(s.last()))
        }
    }
}

/// The maximal runs of non-blank characters of `s`, in order.
pub open spec fn words(s: Seq<char>) -> Seq<Seq<char>> {
    let (done, cur) = split_words(s);
    if cur.len() > 0 {
        done.push(cur)
    } else {
        done
    }
}

pub open spec fn strings_view(v: Seq<String>) -> Seq<Seq<char>> {
    v.map_values(|s: String| s@)
}

/// Relies on `String::push`: `c` is appended.
#[verifier::external_body]
fn push_char(s: &mut String, c: char)
    ensures
        final(s)@ == old(s)@.push(c),
{
    s.push(c)
}

fn chars_of(s: &String) -> (v: Vec<char>)
    ensures
        v@ == s@,
{
    let n = s.as_str().unicode_len();
    let mut v: Vec<char> = Vec::new();
    let mut i: usize = 0;
    while i < n
        invariant
            n == s@.len(),
            i <= n,
            v@ == s@.take(i as int),
        decreases n - i,
    {
        v.push(s.as_str().get_char(i));
        i = i + 1;
        assert(v@ =~= s@.take(i as int));
    }
    assert(s@.take(n as int) =~= s@);
    v
}

fn string_of(v: &Vec<char>) -> (s: String)
    ensures
        s@ == v@,
{
    let mut s = String::new();
    let mut i: usize = 0;
    while i < v.len()
        invariant
            i <= v.len(),
            s@ == v@.take(i as int),
        decreases v.len() - i,
    {
        push_char(&mut s, v[i]);
        i = i + 1;
        assert(s@ =~= v@.take(i as int));
    }
    assert(v@.take(v.len() as int) =~= v@);
    s
}

pub struct Prompt {
    pub cmd: String,
    pub cx: usize,
    /// Whether `cmd` holds a message rather than typed text.
    pub is_msg: bool,
}

impl Default for Prompt {
    fn default() -> (p: Self)
        ensures
            p.cmd@ == Seq::<char>::empty(),
            p.cx == 0,
            !p.is_msg,
    {
        Prompt { cmd: String::new(), cx: 0, is_msg: false }
    }
}

impl Prompt {
    /// Types `c` at the cursor (at the end when the cursor lies past it); a
    /// message on show is cleared first.
    pub fn insert(&mut self, c: char)
        requires
            old(self).cx < usize::MAX,
        ensures
            ({
                let base = if old(self).is_msg {
                    Seq::<char>::empty()
                } else {
                    old(self).cmd@
                };
                let at = if old(self).cx <= base.len() {
                    old(self).cx as int
                } else {
                    base.len() as int
                };
                final(self).cmd@ == base.insert(at, c)
            }),
            final(self).cx == old(self).cx + 1,
            !final(self).is_msg,
    {
        if self.is_msg {
            self.cmd = String::new();
            self.is_msg = false;
        }
        let mut chars = chars_of(&self.cmd);
        let at = if self.cx <= chars.len() {
            self.cx
        } else {
            chars.len()
        };
        chars.insert(at, c);
        self.cmd = string_of(&chars);
        self.cx = self.cx + 1;
    }

    /// Deletes the character before the cursor; a message on show is cleared
    /// instead.
    pub fn backspace(&mut self)
        requires
            old(self).is_msg || 1 <= old(self).cx <= old(self).cmd@.len(),
        ensures
            old(self).is_msg ==> final(self).cmd@ == Seq::<char>::empty() && final(self).cx
                == old(self).cx,
            !old(self).is_msg ==> final(self).cmd@ == old(self).cmd@.remove(old(self).cx - 1)
                && final(self).cx == old(self).cx - 1,
            !final(self).is_msg,
    {
        if self.is_msg {
            self.cmd = String::new();
            self.is_msg = false;
            return;
        }
        let mut chars = chars_of(&self.cmd);
        chars.remove(self.cx - 1);
        self.cmd = string_of(&chars);
        self.cx = self.cx - 1;
    }

    /// Splits the typed text into words at ASCII whitespace and clears it;
    /// nothing when it is empty.
    pub fn parse(&mut self) -> (r: Option<Vec<String>>)
        ensures
            old(self).cmd@.len() == 0 ==> r is None && final(self).cmd@ == old(self).cmd@,
            old(self).cmd@.len() > 0 ==> r is Some && strings_view(r->0@) == words(old(self).cmd@)
                && final(self).cmd@ == Seq::<char>::empty(),
            final(self).cx == old(self).cx,
            final(self).is_msg == old(self).is_msg,
    {
        let chars = chars_of(&self.cmd);
        if chars.len() == 0 {
            return None;
        }
        let mut done: Vec<String> = Vec::new();
        let mut cur: Vec<char> = Vec::new();
        let mut i: usize = 0;
        assert(chars@.take(0) =~= Seq::<char>::empty());
        assert(strings_view(done@) =~= Seq::<Seq<char>>::empty());
        while i < chars.len()
            invariant
                i <= chars.len(),
                (strings_view(done@), cur@) == split_words(chars@.take(i as int)),
            decreases chars.len() - i,
        {
            let c = chars[i];
            assert(chars@.take(i + 1).drop_last() =~= chars@.take(i as int));
            if c == ' ' || c == '\t' || c == '\n' || c == '\r' || c == '\x0C' {
                if cur.len() > 0 {
                    let ghost before = strings_view(done@);
                    done.push(string_of(&cur));
                    assert(strings_view(done@) =~= before.push(cur@));
                    cur = Vec::new();
                    assert(cur@ =~= Seq::<char>::empty());
                }
            } else {
                cur.push(c);
            }
            i = i + 1;
        }
        assert(chars@.take(chars.len() as int) =~= chars@);
        if cur.len() > 0 {
            let ghost before = strings_view(done@);
            done.push(string_of(&cur));
            assert(strings_view(done@) =~= before.push(cur@));
        }
        self.cmd = String::new();
        Some(done)
    }

    /// Shows `msg` in the prompt until the next keystroke.
    pub fn msg(&mut self, msg: String)
        ensures
            final(self).cmd@ == msg@,
            final(self).cx == 0,
            final(self).is_msg,
    {
        self.cmd = msg;
        self.cx = 0;
        self.is_msg = true;
    }
}

} // verus!
