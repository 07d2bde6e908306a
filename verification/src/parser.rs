//! Turning a line typed by the user into a [`Command`].
use vstd::prelude::*;
use crate::command::{Command, CommandView, strings_view};
use crate::text::{is_ws, is_whitespace, chars_of, string_from_range, str_eq, owned};

verus! {

broadcast use vstd::string::group_string_axioms;

/// `s` without its leading white space.
pub open spec fn trim_start(s: Seq<char>) -> Seq<char>
    decreases s.len(),
{
    if s.len() > 0 && is_ws(s[0]) {
        trim_start(s.drop_first())
    } else {
        s
    }
}

/// `s` without its trailing white space.
pub open spec fn trim_end(s: Seq<char>) -> Seq<char>
    decreases s.len(),
{
    if s.len() > 0 && is_ws(s.last()) {
        trim_end(s.drop_last())
    } else {
        s
    }
}

/// What `str::trim` returns.
pub open spec fn trim(s: Seq<char>) -> Seq<char> {
    trim_end(trim_start(s))
}

/// Index of the first `c` in `s`, if any.
pub open spec fn find_char(s: Seq<char>, c: char) -> Option<nat>
    decreases s.len(),
{
    if s.len() == 0 {
        None
    } else if s[0] == c {
        Some(0)
    } else {
        match find_char(s.drop_first(), c) {
            Some(k) => Some(k + 1),
            None => None,
        }
    }
}

/// Number of leading characters of `s` that are not white space.
pub open spec fn word_len(s: Seq<char>) -> nat
    decreases s.len(),
{
    if s.len() == 0 || is_ws(s[0]) {
        0
    } else {
        1 + word_len(s.drop_first())
    }
}

pub proof fn lemma_find_char(s: Seq<char>, c: char)
    ensures
        match find_char(s, c) {
            Some(k) => k < s.len() && s[k as int] == c && forall|m: int|
                0 <= m < k ==> s[m] != c,
            None => forall|m: int| 0 <= m < s.len() ==> s[m] != c,
        },
    decreases s.len(),
{
    if s.len() > 0 && s[0] != c {
        lemma_find_char(s.drop_first(), c);
        match find_char(s.drop_first(), c) {
            Some(k) => {
                assert forall|m: int| 0 <= m < k + 1 implies s[m] != c by {
                    if m > 0 {
                        assert(s[m] == s.drop_first()[m - 1]);
                    }
                }
            },
            None => {
                assert forall|m: int| 0 <= m < s.len() implies s[m] != c by {
                    if m > 0 {
                        assert(s[m] == s.drop_first()[m - 1]);
                    }
                }
            },
        }
    }
}

pub proof fn lemma_word_len(s: Seq<char>)
    ensures
        word_len(s) <= s.len(),
        forall|m: int| 0 <= m < word_len(s) ==> !is_ws(s[m]),
        word_len(s) < s.len() ==> is_ws(s[word_len(s) as int]),
    decreases s.len(),
{
    if s.len() > 0 && !is_ws(s[0]) {
        lemma_word_len(s.drop_first());
        assert forall|m: int| 0 <= m < word_len(s) implies !is_ws(s[m]) by {
            if m > 0 {
                assert(s[m] == s.drop_first()[m - 1]);
            }
        }
    }
}

/// The tokens of `s`, as the client splits a command line: white space
/// separates tokens, and a token that starts with `"` runs to the next `"`
/// (both quotes dropped). `None` when a quote is never closed.
pub open spec fn tokenize(s: Seq<char>) -> Option<Seq<Seq<char>>>
    decreases s.len(),
{
    if s.len() == 0 {
        Some(seq![])
    } else if is_ws(s[0]) {
        tokenize(s.drop_first())
    } else if s[0] == '"' {
        let rest = s.drop_first();
        match find_char(rest, '"') {
            None => None,
            Some(j) => {
                proof {
                    lemma_find_char(rest, '"');
                }
                match tokenize(rest.skip((j + 1) as int)) {
                    Some(t) => Some(seq![rest.take(j as int)] + t),
                    None => None,
                }
            },
        }
    } else {
        let j = word_len(s);
        proof {
            lemma_word_len(s);
            assert(word_len(s) == 1 + word_len(s.drop_first()));
        }
        match tokenize(s.skip(j as int)) {
            Some(t) => Some(seq![s.take(j as int)] + t),
            None => None,
        }
    }
}

pub open spec fn prepend_tokens(
    ts: Seq<Seq<char>>,
    r: Option<Seq<Seq<char>>>,
) -> Option<Seq<Seq<char>>> {
    match r {
        Some(t) => Some(ts + t),
        None => None,
    }
}

fn trim_chars(v: &Vec<char>) -> (r: Vec<char>)
    ensures
        r@ == trim(v@),
{
    let mut lo: usize = 0;
    assert(v@.skip(0) =~= v@);
    while lo < v.len() && is_whitespace(v[lo])
        invariant
            lo <= v@.len(),
            trim_start(v@) == trim_start(v@.skip(lo as int)),
        decreases v@.len() - lo,
    {
        assert(v@.skip(lo as int).drop_first() =~= v@.skip(lo + 1));
        lo += 1;
    }
    let ghost s = v@.skip(lo as int);
    assert(trim_start(v@) == s);
    let mut hi: usize = v.len();
    while hi > lo && is_whitespace(v[hi - 1])
        invariant
            lo <= hi <= v@.len(),
            s == v@.skip(lo as int),
            trim_end(s) == trim_end(v@.subrange(lo as int, hi as int)),
        decreases hi,
    {
        assert(v@.subrange(lo as int, hi as int).drop_last() =~= v@.subrange(lo as int, hi - 1));
        hi -= 1;
    }
    assert(v@.skip(0) =~= v@);
    assert(s =~= v@.subrange(lo as int, v@.len() as int));
    let mut r: Vec<char> = Vec::new();
    let mut i = lo;
    while i < hi
        invariant
            lo <= i <= hi <= v@.len(),
            r@ == v@.subrange(lo as int, i as int),
        decreases hi - i,
    {
        r.push(v[i]);
        assert(r@ =~= v@.subrange(lo as int, i + 1));
        i += 1;
    }
    r
}

/// Splits a command line into tokens (see [`tokenize`]), after trimming it.
pub fn tokenize_input(input: &str) -> (r: Result<Vec<String>, String>)
    ensures
        match r {
            Ok(t) => tokenize(trim(input@)) == Some(strings_view(t@)),
            Err(e) => tokenize(trim(input@)) is None && e@ == "Missing closing quote"@,
        },
{
    let all = chars_of(input);
    let chars = trim_chars(&all);
    let mut tokens: Vec<String> = Vec::new();
    let mut i: usize = 0;
    assert(chars@.skip(0) =~= chars@);
    while i < chars.len()
        invariant
            i <= chars@.len(),
            chars@ == trim(input@),
            tokenize(chars@) == prepend_tokens(strings_view(tokens@), tokenize(chars@.skip(i as int))),
        decreases chars@.len() - i,
    {
        let ghost rest = chars@.skip(i as int);
        if is_whitespace(chars[i]) {
            assert(rest.drop_first() =~= chars@.skip(i + 1));
            i += 1;
        } else if chars[i] == '"' {
            let start = i + 1;
            let mut j = start;
            while j < chars.len() && chars[j] != '"'
                invariant
                    start <= j <= chars@.len(),
                    forall|m: int| start <= m < j ==> chars@[m] != '"',
                decreases chars@.len() - j,
            {
                j += 1;
            }
            let ghost inner = rest.drop_first();
            assert(inner =~= chars@.skip(start as int));
            proof {
                lemma_find_char(inner, '"');
            }
            if j >= chars.len() {
                assert(find_char(inner, '"') is None) by {
                    if let Some(k) = find_char(inner, '"') {
                        assert(inner[k as int] == chars@[start + k]);
                    }
                };
                return Err(owned("Missing closing quote"));
            }
            assert(find_char(inner, '"') == Some((j - start) as nat)) by {
                if let Some(k) = find_char(inner, '"') {
                    assert(inner[k as int] == chars@[start + k]);
                    assert(inner[j - start] == chars@[j as int]);
                } else {
                    assert(inner[j - start] == chars@[j as int]);
                }
            };
            let token = string_from_range(&chars, start, j);
            assert(token@ =~= inner.take(j - start));
            assert(inner.skip(j - start + 1) =~= chars@.skip(j + 1));
            tokens.push(token);
            assert(strings_view(tokens@) =~= strings_view(tokens@.drop_last()).push(token@));
            i = j + 1;
        } else {
            let start = i;
            let mut j = i;
            while j < chars.len() && !is_whitespace(chars[j])
                invariant
                    start <= j <= chars@.len(),
                    forall|m: int| start <= m < j ==> !is_ws(chars@[m]),
                decreases chars@.len() - j,
            {
                j += 1;
            }
            proof {
                lemma_word_len(rest);
            }
            assert(word_len(rest) == j - start) by {
                if word_len(rest) < j - start {
                    assert(rest[word_len(rest) as int] == chars@[start + word_len(rest)]);
                } else if word_len(rest) > j - start {
                    assert(rest[j - start] == chars@[j as int]);
                }
            };
            let token = string_from_range(&chars, start, j);
            assert(token@ =~= rest.take(j - start));
            assert(rest.skip(j - start) =~= chars@.skip(j as int));
            tokens.push(token);
            assert(strings_view(tokens@) =~= strings_view(tokens@.drop_last()).push(token@));
            i = j;
        }
    }
    assert(chars@.skip(i as int) =~= Seq::<char>::empty());
    assert(strings_view(tokens@) + seq![] =~= strings_view(tokens@));
    Ok(tokens)
}

pub open spec fn opt_token(t: Seq<Seq<char>>, i: int) -> Option<Seq<char>> {
    if t.len() > i {
        Some(t[i])
    } else {
        None
    }
}

/// The command that a sequence of tokens stands for, or the error message.
pub open spec fn command_of_tokens(t: Seq<Seq<char>>) -> Result<CommandView, Seq<char>> {
    if t.len() == 0 {
        Err("Empty command"@)
    } else {
        let c = t[0];
        if c == "/help"@ {
            if t.len() != 1 {
                Err("/help takes no arguments"@)
            } else {
                Ok(CommandView::Help)
            }
        } else if c == "/login"@ {
            if t.len() != 2 {
                Err("/login requires \"user_name\""@)
            } else {
                Ok(CommandView::Login { user_name: t[1] })
            }
        } else if c == "/logout"@ {
            if t.len() != 1 {
                Err("/logout takes no arguments"@)
            } else {
                Ok(CommandView::Logout)
            }
        } else if c == "/users"@ {
            if t.len() != 1 {
                Err("/users takes no arguments"@)
            } else {
                Ok(CommandView::Users)
            }
        } else if c == "/user"@ {
            if t.len() != 2 {
                Err("/user requires \"user_uuid\""@)
            } else {
                Ok(CommandView::User { user_uuid: t[1] })
            }
        } else if c == "/send"@ {
            if t.len() != 3 {
                Err("/send requires \"user_uuid\" \"message_body\""@)
            } else {
                Ok(CommandView::Send { user_uuid: t[1], body: t[2] })
            }
        } else if c == "/messages"@ {
            if t.len() != 2 {
                Err("/messages requires \"user_uuid\""@)
            } else {
                Ok(CommandView::Messages { user_uuid: t[1] })
            }
        } else if c == "/subscribe"@ {
            if t.len() != 2 {
                Err("/subscribe requires \"team_uuid\""@)
            } else {
                Ok(CommandView::Subscribe { team_uuid: t[1] })
            }
        } else if c == "/subscribed"@ {
            if t.len() > 2 {
                Err("/subscribed accepts zero or one \"team_uuid\""@)
            } else {
                Ok(CommandView::Subscribed { team_uuid: opt_token(t, 1) })
            }
        } else if c == "/unsubscribe"@ {
            if t.len() != 2 {
                Err("/unsubscribe requires \"team_uuid\""@)
            } else {
                Ok(CommandView::Unsubscribe { team_uuid: t[1] })
            }
        } else if c == "/use"@ {
            if t.len() > 4 {
                Err("/use accepts up to \"team_uuid\" \"channel_uuid\" \"thread_uuid\""@)
            } else {
                Ok(
                    CommandView::Use {
                        team_uuid: opt_token(t, 1),
                        channel_uuid: opt_token(t, 2),
                        thread_uuid: opt_token(t, 3),
                    },
                )
            }
        } else if c == "/create"@ {
            Ok(CommandView::Create { args: t.skip(1) })
        } else if c == "/list"@ {
            if t.len() != 1 {
                Err("/list takes no arguments"@)
            } else {
                Ok(CommandView::List)
            }
        } else if c == "/info"@ {
            if t.len() != 1 {
                Err("/info takes no arguments"@)
            } else {
                Ok(CommandView::Info)
            }
        } else {
            Err("Unknown command"@)
        }
    }
}

/// What [`parse_command`] returns for the line `s`.
pub open spec fn parse_command_spec(s: Seq<char>) -> Result<CommandView, Seq<char>> {
    match tokenize(trim(s)) {
        None => Err("Missing closing quote"@),
        Some(t) => command_of_tokens(t),
    }
}

fn token_at(tokens: &Vec<String>, i: usize) -> (r: Option<String>)
    ensures
        crate::command::opt_view(r) == opt_token(strings_view(tokens@), i as int),
{
    if i < tokens.len() {
        Some(tokens[i].clone())
    } else {
        None
    }
}

fn err(msg: &str) -> (r: Result<Command, String>)
    ensures
        r matches Err(e) && e@ == msg@,
{
    Err(owned(msg))
}

/// Parses a command line typed by the user.
pub fn parse_command(input: &str) -> (r: Result<Command, String>)
    ensures
        match r {
            Ok(c) => parse_command_spec(input@) == Ok::<CommandView, Seq<char>>(c@),
            Err(e) => parse_command_spec(input@) == Err::<CommandView, Seq<char>>(e@),
        },
{
    let tokens = match tokenize_input(input) {
        Ok(t) => t,
        Err(e) => {
            return Err(e);
        },
    };
    let ghost t = strings_view(tokens@);
    if tokens.len() == 0 {
        return err("Empty command");
    }
    let n = tokens.len();
    let c = tokens[0].as_str();
    assert(t[0] == c@);
    if str_eq(c, "/help") {
        if n != 1 {
            return err("/help takes no arguments");
        }
        Ok(Command::Help)
    } else if str_eq(c, "/login") {
        if n != 2 {
            return err("/login requires \"user_name\"");
        }
        Ok(Command::Login { user_name: tokens[1].clone() })
    } else if str_eq(c, "/logout") {
        if n != 1 {
            return err("/logout takes no arguments");
        }
        Ok(Command::Logout)
    } else if str_eq(c, "/users") {
        if n != 1 {
            return err("/users takes no arguments");
        }
        Ok(Command::Users)
    } else if str_eq(c, "/user") {
        if n != 2 {
            return err("/user requires \"user_uuid\"");
        }
        Ok(Command::User { user_uuid: tokens[1].clone() })
    } else if str_eq(c, "/send") {
        if n != 3 {
            return err("/send requires \"user_uuid\" \"message_body\"");
        }
        Ok(Command::Send { user_uuid: tokens[1].clone(), body: tokens[2].clone() })
    } else if str_eq(c, "/messages") {
        if n != 2 {
            return err("/messages requires \"user_uuid\"");
        }
        Ok(Command::Messages { user_uuid: tokens[1].clone() })
    } else if str_eq(c, "/subscribe") {
        if n != 2 {
            return err("/subscribe requires \"team_uuid\"");
        }
        Ok(Command::Subscribe { team_uuid: tokens[1].clone() })
    } else if str_eq(c, "/subscribed") {
        if n > 2 {
            return err("/subscribed accepts zero or one \"team_uuid\"");
        }
        Ok(Command::Subscribed { team_uuid: token_at(&tokens, 1) })
    } else if str_eq(c, "/unsubscribe") {
        if n != 2 {
            return err("/unsubscribe requires \"team_uuid\"");
        }
        Ok(Command::Unsubscribe { team_uuid: tokens[1].clone() })
    } else if str_eq(c, "/use") {
        if n > 4 {
            return err("/use accepts up to \"team_uuid\" \"channel_uuid\" \"thread_uuid\"");
        }
        Ok(
            Command::Use {
                team_uuid: token_at(&tokens, 1),
                channel_uuid: token_at(&tokens, 2),
                thread_uuid: token_at(&tokens, 3),
            },
        )
    } else if str_eq(c, "/create") {
        let mut args: Vec<String> = Vec::new();
        let mut k: usize = 1;
        while k < n
            invariant
                1 <= k <= n,
                n == tokens@.len(),
                t == strings_view(tokens@),
                strings_view(args@) == t.subrange(1, k as int),
            decreases n - k,
        {
            let a = tokens[k].clone();
            assert(t[k as int] == a@);
            let ghost before = args@;
            args.push(a);
            assert(strings_view(args@) =~= strings_view(before).push(a@));
            assert(strings_view(args@) =~= t.subrange(1, k + 1));
            k += 1;
        }
        assert(t.subrange(1, n as int) =~= t.skip(1));
        Ok(Command::Create { args })
    } else if str_eq(c, "/list") {
        if n != 1 {
            return err("/list takes no arguments");
        }
        Ok(Command::List)
    } else if str_eq(c, "/info") {
        if n != 1 {
            return err("/info takes no arguments");
        }
        Ok(Command::Info)
    } else {
        err("Unknown command")
    }
}

/// Whether `s` is white space only.
pub open spec fn all_ws(s: Seq<char>) -> bool {
    forall|i: int| 0 <= i < s.len() ==> is_ws(#[trigger] s[i])
}

/// The white-space separated words of `s`, as `str::split_whitespace` gives them.
pub open spec fn words(s: Seq<char>) -> Seq<Seq<char>>
    decreases s.len(),
{
    if s.len() == 0 {
        seq![]
    } else if is_ws(s[0]) {
        words(s.drop_first())
    } else {
        let j = word_len(s);
        proof {
            lemma_word_len(s);
            assert(word_len(s) == 1 + word_len(s.drop_first()));
        }
        seq![s.take(j as int)] + words(s.skip(j as int))
    }
}

proof fn lemma_trim_start_ws(p: Seq<char>, x: Seq<char>)
    requires
        all_ws(p),
    ensures
        trim_start(p + x) == trim_start(x),
    decreases p.len(),
{
    if p.len() == 0 {
        assert(p + x =~= x);
    } else {
        assert(is_ws(p[0]));
        assert((p + x)[0] == p[0]);
        assert((p + x).drop_first() =~= p.drop_first() + x);
        lemma_trim_start_ws(p.drop_first(), x);
    }
}

proof fn lemma_trim_start_append(s: Seq<char>, q: Seq<char>)
    requires
        all_ws(q),
    ensures
        trim_start(s + q) == if trim_start(s).len() == 0 {
            Seq::<char>::empty()
        } else {
            trim_start(s) + q
        },
    decreases s.len(),
{
    if s.len() == 0 {
        assert(s + q =~= q);
        lemma_trim_start_ws(q, seq![]);
        assert(q + Seq::<char>::empty() =~= q);
    } else {
        assert((s + q)[0] == s[0]);
        if is_ws(s[0]) {
            assert((s + q).drop_first() =~= s.drop_first() + q);
            lemma_trim_start_append(s.drop_first(), q);
        }
    }
}

proof fn lemma_trim_end_ws(y: Seq<char>, q: Seq<char>)
    requires
        all_ws(q),
    ensures
        trim_end(y + q) == trim_end(y),
    decreases q.len(),
{
    if q.len() == 0 {
        assert(y + q =~= y);
    } else {
        assert(is_ws(q[q.len() - 1]));
        assert((y + q).last() == q.last());
        assert((y + q).drop_last() =~= y + q.drop_last());
        lemma_trim_end_ws(y, q.drop_last());
    }
}

proof fn lemma_trim_padded(p: Seq<char>, s: Seq<char>, q: Seq<char>)
    requires
        all_ws(p),
        all_ws(q),
    ensures
        trim(p + s + q) == trim(s),
{
    assert(p + s + q =~= p + (s + q));
    lemma_trim_start_ws(p, s + q);
    lemma_trim_start_append(s, q);
    if trim_start(s).len() > 0 {
        lemma_trim_end_ws(trim_start(s), q);
    } else {
        assert(trim_start(s) =~= Seq::<char>::empty());
    }
}

/// White space before and after a command line does not change what the
/// parser makes of it.
pub proof fn law_padding_does_not_change_the_command(p: Seq<char>, s: Seq<char>, q: Seq<char>)
    requires
        all_ws(p),
        all_ws(q),
    ensures
        parse_command_spec(p + s + q) == parse_command_spec(s),
{
    lemma_trim_padded(p, s, q);
}

proof fn lemma_tokenize_words(s: Seq<char>)
    requires
        !s.contains('"'),
    ensures
        tokenize(s) == Some(words(s)),
    decreases s.len(),
{
    if s.len() > 0 {
        assert(!s.drop_first().contains('"')) by {
            if s.drop_first().contains('"') {
                let k = choose|k: int| 0 <= k < s.drop_first().len() && s.drop_first()[k] == '"';
                assert(s[k + 1] == '"');
            }
        }
        if is_ws(s[0]) {
            lemma_tokenize_words(s.drop_first());
        } else {
            assert(s[0] != '"');
            let j = word_len(s);
            lemma_word_len(s);
            assert(word_len(s) == 1 + word_len(s.drop_first()));
            let r = s.skip(j as int);
            assert(!r.contains('"')) by {
                if r.contains('"') {
                    let k = choose|k: int| 0 <= k < r.len() && r[k] == '"';
                    assert(s[k + j] == '"');
                }
            }
            lemma_tokenize_words(r);
        }
    }
}

proof fn lemma_words_ws_prefix(p: Seq<char>, x: Seq<char>)
    requires
        all_ws(p),
    ensures
        words(p + x) == words(x),
    decreases p.len(),
{
    if p.len() == 0 {
        assert(p + x =~= x);
    } else {
        assert(is_ws(p[0]));
        assert((p + x)[0] == p[0]);
        assert((p + x).drop_first() =~= p.drop_first() + x);
        lemma_words_ws_prefix(p.drop_first(), x);
    }
}

proof fn lemma_word_len_push(x: Seq<char>, c: char)
    requires
        is_ws(c),
    ensures
        word_len(x.push(c)) == word_len(x),
    decreases x.len(),
{
    if x.len() == 0 {
        assert(x.push(c)[0] == c);
    } else {
        assert(x.push(c)[0] == x[0]);
        assert(x.push(c).drop_first() =~= x.drop_first().push(c));
        lemma_word_len_push(x.drop_first(), c);
    }
}

proof fn lemma_words_push_ws(x: Seq<char>, c: char)
    requires
        is_ws(c),
    ensures
        words(x.push(c)) == words(x),
    decreases x.len(),
{
    let y = x.push(c);
    if x.len() == 0 {
        assert(y[0] == c);
        assert(y.drop_first() =~= Seq::<char>::empty());
        assert(words(y) == words(y.drop_first()));
    } else {
        assert(y[0] == x[0]);
        if is_ws(x[0]) {
            assert(y.drop_first() =~= x.drop_first().push(c));
            lemma_words_push_ws(x.drop_first(), c);
        } else {
            lemma_word_len_push(x, c);
            let j = word_len(x);
            lemma_word_len(x);
            assert(word_len(x) == 1 + word_len(x.drop_first()));
            assert(y.take(j as int) =~= x.take(j as int));
            assert(y.skip(j as int) =~= x.skip(j as int).push(c));
            lemma_words_push_ws(x.skip(j as int), c);
            assert(words(y) == seq![y.take(j as int)] + words(y.skip(j as int)));
            assert(words(x) == seq![x.take(j as int)] + words(x.skip(j as int)));
        }
    }
}

proof fn lemma_words_trim(s: Seq<char>)
    ensures
        words(trim(s)) == words(s),
        !s.contains('"') ==> !trim(s).contains('"'),
{
    lemma_words_trim_start(s);
    lemma_words_trim_end(trim_start(s));
}

proof fn lemma_words_trim_start(s: Seq<char>)
    ensures
        words(trim_start(s)) == words(s),
        !s.contains('"') ==> !trim_start(s).contains('"'),
    decreases s.len(),
{
    if s.len() > 0 && is_ws(s[0]) {
        lemma_words_trim_start(s.drop_first());
        if !s.contains('"') {
            assert(!s.drop_first().contains('"')) by {
                if s.drop_first().contains('"') {
                    let k = choose|k: int| 0 <= k < s.drop_first().len() && s.drop_first()[k] == '"';
                    assert(s[k + 1] == '"');
                }
            }
        }
    }
}

proof fn lemma_words_trim_end(s: Seq<char>)
    ensures
        words(trim_end(s)) == words(s),
        !s.contains('"') ==> !trim_end(s).contains('"'),
    decreases s.len(),
{
    if s.len() > 0 && is_ws(s.last()) {
        lemma_words_trim_end(s.drop_last());
        lemma_words_push_ws(s.drop_last(), s.last());
        assert(s.drop_last().push(s.last()) =~= s);
        if !s.contains('"') {
            assert(!s.drop_last().contains('"')) by {
                if s.drop_last().contains('"') {
                    let k = choose|k: int| 0 <= k < s.drop_last().len() && s.drop_last()[k] == '"';
                    assert(s[k] == '"');
                }
            }
        }
    }
}

/// A command line without quotes splits into its white-space separated
/// words, as `str::split_whitespace` gives them.
pub proof fn law_quote_free_line_splits_on_white_space(s: Seq<char>)
    requires
        !s.contains('"'),
    ensures
        tokenize(trim(s)) == Some(words(s)),
{
    lemma_words_trim(s);
    lemma_tokenize_words(trim(s));
}

/// Two command lines without quotes that have the same words (however much
/// white space stands between them) parse the same.
pub proof fn law_white_space_between_words_does_not_matter(s1: Seq<char>, s2: Seq<char>)
    requires
        !s1.contains('"'),
        !s2.contains('"'),
        words(s1) == words(s2),
    ensures
        parse_command_spec(s1) == parse_command_spec(s2),
{
    law_quote_free_line_splits_on_white_space(s1);
    law_quote_free_line_splits_on_white_space(s2);
}

} // verus!
