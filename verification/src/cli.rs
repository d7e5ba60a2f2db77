//! The `remind` subcommand's arguments: free words make the reminder text,
//! `--due VALUE` sets the due date.

use vstd::prelude::*;

use crate::date::{parse_date, parse_ymd, Date};
use crate::text::{chars_eq, chars_of, string_of};

verus! {

/// Why the `remind` arguments were refused.
#[derive(Debug)]
pub enum CliError {
    /// `--due` came last, without a value.
    MissingDueValue,
    /// The value after `--due` is not a `YYYY-MM-DD` date.
    InvalidDue(String),
    /// No words were given for the reminder text.
    EmptyText,
}

/// A refusal as plain values.
pub enum RemindArgsFailure {
    MissingDueValue,
    InvalidDue(Seq<char>),
    EmptyText,
}

/// A refusal as plain values.
pub open spec fn cli_error_view(e: CliError) -> RemindArgsFailure {
    match e {
        CliError::MissingDueValue => RemindArgsFailure::MissingDueValue,
        CliError::InvalidDue(v) => RemindArgsFailure::InvalidDue(v@),
        CliError::EmptyText => RemindArgsFailure::EmptyText,
    }
}

/// The message shown for a refusal.
pub open spec fn cli_error_message(e: RemindArgsFailure) -> Seq<char> {
    match e {
        RemindArgsFailure::MissingDueValue => "--due needs a YYYY-MM-DD value"@,
        RemindArgsFailure::InvalidDue(v) => "invalid --due '"@ + v + "', expected YYYY-MM-DD"@,
        RemindArgsFailure::EmptyText => "reminder text is empty; usage: tui-notes remind <text> [--due YYYY-MM-DD]"@,
    }
}

impl CliError {
    /// The message printed for this refusal.
    pub fn message(&self) -> (m: String)
        ensures
            m@ == cli_error_message(cli_error_view(*self)),
    {
        match self {
            CliError::MissingDueValue => String::from_str("--due needs a YYYY-MM-DD value"),
            CliError::InvalidDue(v) => {
                let mut m = String::from_str("invalid --due '");
                m.append(v.as_str());
                m.append("', expected YYYY-MM-DD");
                m
            },
            CliError::EmptyText => String::from_str(
                "reminder text is empty; usage: tui-notes remind <text> [--due YYYY-MM-DD]",
            ),
        }
    }
}

/// The flag that introduces a due date.
pub open spec fn due_flag() -> Seq<char> {
    seq!['-', '-', 'd', 'u', 'e']
}

/// The date chrono reads from `v`, as a [`Date`].
pub open spec fn date_of(v: Seq<char>) -> Option<Date> {
    match parse_ymd(v) {
        Some(t) => Some(Date { year: t.0, month: t.1, day: t.2 }),
        None => None,
    }
}

/// The words and the due date found in `args`, read left to right; a later
/// `--due` replaces an earlier one, and the first bad `--due` is reported.
pub open spec fn scan_args(args: Seq<Seq<char>>) -> Result<
    (Seq<Seq<char>>, Option<Date>),
    RemindArgsFailure,
>
    decreases args.len(),
{
    if args.len() == 0 {
        Ok((Seq::empty(), None))
    } else if args[0] == due_flag() {
        if args.len() < 2 {
            Err(RemindArgsFailure::MissingDueValue)
        } else {
            match date_of(args[1]) {
                None => Err(RemindArgsFailure::InvalidDue(args[1])),
                Some(d) => match scan_args(args.subrange(2, args.len() as int)) {
                    Ok((w, due)) => Ok((w, if due is Some { due } else { Some(d) })),
                    Err(e) => Err(e),
                },
            }
        }
    } else {
        match scan_args(args.subrange(1, args.len() as int)) {
            Ok((w, due)) => Ok((seq![args[0]] + w, due)),
            Err(e) => Err(e),
        }
    }
}

/// The words joined with single spaces.
pub open spec fn join_words(w: Seq<Seq<char>>) -> Seq<char>
    decreases w.len(),
{
    if w.len() == 0 {
        Seq::empty()
    } else if w.len() == 1 {
        w[0]
    } else {
        join_words(w.drop_last()) + seq![' '] + w.last()
    }
}

/// What `tui-notes remind ARGS` records: the text and optional due date, or
/// why the arguments were refused.
pub open spec fn parse_remind_spec(args: Seq<Seq<char>>) -> Result<
    (Seq<char>, Option<Date>),
    RemindArgsFailure,
> {
    match scan_args(args) {
        Err(e) => Err(e),
        Ok((w, due)) => if w.len() == 0 {
            Err(RemindArgsFailure::EmptyText)
        } else {
            Ok((join_words(w), due))
        },
    }
}

/// What the words and due seen so far make together with the outcome of
/// scanning the rest.
pub open spec fn continue_scan(
    words: Seq<Seq<char>>,
    due: Option<Date>,
    rest: Result<(Seq<Seq<char>>, Option<Date>), RemindArgsFailure>,
) -> Result<(Seq<Seq<char>>, Option<Date>), RemindArgsFailure> {
    match rest {
        Ok((w, d)) => Ok((words + w, if d is Some { d } else { due })),
        Err(e) => Err(e),
    }
}

/// The arguments as plain values.
pub open spec fn args_view(args: Seq<String>) -> Seq<Seq<char>> {
    args.map_values(|s: String| s@)
}

fn join_with_spaces(words: &Vec<Vec<char>>) -> (r: Vec<char>)
    ensures
        r@ == join_words(crate::text::views(words@)),
{
    let ghost w = crate::text::views(words@);
    let mut r: Vec<char> = Vec::new();
    let mut i: usize = 0;
    while i < words.len()
        invariant
            i <= words@.len(),
            w == crate::text::views(words@),
            r@ == join_words(w.subrange(0, i as int)),
        decreases words@.len() - i,
    {
        if i > 0 {
            r.push(' ');
        }
        let ghost before = r@;
        let mut j: usize = 0;
        while j < words[i].len()
            invariant
                i < words@.len(),
                j <= words@[i as int]@.len(),
                r@ == before + words@[i as int]@.subrange(0, j as int),
            decreases words@[i as int]@.len() - j,
        {
            r.push(words[i][j]);
            assert(r@ =~= before + words@[i as int]@.subrange(0, j + 1));
            j = j + 1;
        }
        proof {
            assert(words@[i as int]@.subrange(0, words@[i as int]@.len() as int) =~= words@[i as int]@);
            let p = w.subrange(0, i + 1);
            assert(p.drop_last() =~= w.subrange(0, i as int));
            assert(p.last() == w[i as int]);
            if i == 0 {
                assert(p =~= seq![w[0]]);
                assert(r@ =~= w[0]);
            } else {
                assert(r@ =~= join_words(w.subrange(0, i as int)) + seq![' '] + w[i as int]);
            }
        }
        i = i + 1;
    }
    assert(w.subrange(0, w.len() as int) =~= w);
    r
}

/// Collects the free words into the reminder text and `--due VALUE` into
/// the due date.
pub fn parse_remind_args(args: &Vec<String>) -> (r: Result<(String, Option<Date>), CliError>)
    ensures
        r matches Ok((t, d)) ==> parse_remind_spec(args_view(args@)) == Ok::<
            (Seq<char>, Option<Date>),
            RemindArgsFailure,
        >((t@, d)),
        r matches Err(e) ==> parse_remind_spec(args_view(args@)) == Err::<
            (Seq<char>, Option<Date>),
            RemindArgsFailure,
        >(cli_error_view(e)),
        r matches Ok((t, d)) ==> spaced(free_words_from(args_view(args@), 0), t@),
{
    let ghost all = args_view(args@);
    let mut words: Vec<Vec<char>> = Vec::new();
    let mut due: Option<Date> = None;
    let flag = vec!['-', '-', 'd', 'u', 'e'];
    assert(flag@ =~= due_flag());
    let mut i: usize = 0;
    assert(all.subrange(0, all.len() as int) =~= all);
    assert(crate::text::views(words@) =~= Seq::<Seq<char>>::empty());
    while i < args.len()
        invariant
            i <= args@.len(),
            all == args_view(args@),
            flag@ == due_flag(),
            scan_args(all) == continue_scan(
                crate::text::views(words@),
                due,
                scan_args(all.subrange(i as int, all.len() as int)),
            ),
        decreases args@.len() - i,
    {
        let ghost rest = all.subrange(i as int, all.len() as int);
        let ghost wv = crate::text::views(words@);
        let arg = chars_of(args[i].as_str());
        assert(rest[0] == arg@);
        if chars_eq(&arg, &flag) {
            if i + 1 >= args.len() {
                return Err(CliError::MissingDueValue);
            }
            assert(rest[1] == args@[i + 1]@);
            match parse_date(args[i + 1].as_str()) {
                None => {
                    return Err(CliError::InvalidDue(args[i + 1].clone()));
                },
                Some(d) => {
                    assert(rest.subrange(2, rest.len() as int) =~= all.subrange(i + 2, all.len() as int));
                    due = Some(d);
                },
            }
            i = i + 2;
        } else {
            words.push(arg);
            proof {
                assert(rest.subrange(1, rest.len() as int) =~= all.subrange(i + 1, all.len() as int));
                assert(crate::text::views(words@) =~= wv + seq![rest[0]]);
                match scan_args(all.subrange(i + 1, all.len() as int)) {
                    Ok((w, d)) => {
                        assert(wv + (seq![rest[0]] + w) =~= (wv + seq![rest[0]]) + w);
                    },
                    Err(e) => {},
                }
            }
            i = i + 1;
        }
    }
    proof {
        assert(all.subrange(i as int, all.len() as int) =~= Seq::<Seq<char>>::empty());
        assert(crate::text::views(words@) + Seq::<Seq<char>>::empty() =~= crate::text::views(words@));
    }
    if words.len() == 0 {
        return Err(CliError::EmptyText);
    }
    let text = join_with_spaces(&words);
    proof {
        law_text_is_free_words(args_view(args@));
    }
    Ok((string_of(text.as_slice()), due))
}

} // verus!

verus! {

/// Whether `args[i]` is read as the `--due` flag: it is `--due` and is not
/// itself the value of a flag just before it.
pub open spec fn read_as_flag(args: Seq<Seq<char>>, i: int) -> bool
    decreases i,
{
    if i < 0 || i >= args.len() {
        false
    } else if i > 0 && read_as_flag(args, i - 1) {
        false
    } else {
        args[i] == due_flag()
    }
}

/// Whether `args[i]` is a free word: neither a `--due` flag nor the value
/// that follows one.
pub open spec fn free_word(args: Seq<Seq<char>>, i: int) -> bool {
    0 <= i < args.len() && !read_as_flag(args, i) && !(i > 0 && read_as_flag(args, i - 1))
}

/// The free words among `args[k..]`, in order.
pub open spec fn free_words_from(args: Seq<Seq<char>>, k: int) -> Seq<Seq<char>>
    decreases args.len() - k,
{
    if k < 0 || k >= args.len() {
        Seq::empty()
    } else {
        (if free_word(args, k) {
            seq![args[k]]
        } else {
            Seq::empty()
        }) + free_words_from(args, k + 1)
    }
}

/// Where word `i` starts when `ws` are written one after another, each
/// followed by one space.
pub open spec fn word_start(ws: Seq<Seq<char>>, i: int) -> int
    decreases i,
{
    if i <= 0 {
        0
    } else {
        word_start(ws, i - 1) + ws[i - 1].len() + 1
    }
}

/// `t` is the words `ws` with single spaces between them: each word at its
/// place, a space after every word but the last, nothing else.
pub open spec fn spaced(ws: Seq<Seq<char>>, t: Seq<char>) -> bool {
    &&& ws.len() > 0
    &&& t.len() + 1 == word_start(ws, ws.len() as int)
    &&& forall|i: int|
        0 <= i < ws.len() ==> t.subrange(word_start(ws, i), word_start(ws, i) + ws[i].len()) == #[trigger] ws[i]
            && (i + 1 < ws.len() ==> t[word_start(ws, i) + ws[i].len()] == ' ')
}

proof fn lemma_word_start_prefix(ws: Seq<Seq<char>>, i: int)
    requires
        0 <= i < ws.len(),
    ensures
        word_start(ws.drop_last(), i) == word_start(ws, i),
    decreases i,
{
    if i > 0 {
        lemma_word_start_prefix(ws, i - 1);
    }
}

proof fn lemma_word_start_mono(ws: Seq<Seq<char>>, i: int, j: int)
    requires
        0 <= i <= j <= ws.len(),
    ensures
        word_start(ws, i) + (j - i) <= word_start(ws, j),
    decreases j - i,
{
    if i < j {
        lemma_word_start_mono(ws, i, j - 1);
    }
}

/// An earlier word keeps its place, and the space after it, when one more
/// word is written.
proof fn lemma_spaced_earlier(p: Seq<Seq<char>>, tp: Seq<char>, w: Seq<char>, i: int)
    requires
        spaced(p, tp),
        0 <= i < p.len(),
    ensures
        ({
            let ws = p.push(w);
            let t = tp + seq![' '] + w;
            &&& t.subrange(word_start(ws, i), word_start(ws, i) + ws[i].len()) == ws[i]
            &&& t[word_start(ws, i) + ws[i].len()] == ' '
        }),
{
    let ws = p.push(w);
    let t = tp + seq![' '] + w;
    let n = p.len() as int;
    assert(ws.drop_last() =~= p);
    lemma_word_start_prefix(ws, i);
    assert(ws[i] == p[i]);
    lemma_word_start_mono(p, i + 1, n);
    lemma_word_start_mono(p, 0, i);
    assert(word_start(p, 0) == 0);
    assert(word_start(p, i + 1) == word_start(p, i) + p[i].len() + 1);
    assert(word_start(p, i) + p[i].len() <= tp.len());
    assert(tp.subrange(word_start(p, i), word_start(p, i) + p[i].len()) == p[i]);
    assert(t.subrange(word_start(p, i), word_start(p, i) + p[i].len()) =~= tp.subrange(
        word_start(p, i),
        word_start(p, i) + p[i].len(),
    ));
    if i + 1 < n {
        assert(tp[word_start(p, i) + p[i].len()] == ' ');
        assert(t[word_start(p, i) + p[i].len()] == tp[word_start(p, i) + p[i].len()]);
    } else {
        assert(word_start(p, i) + p[i].len() == tp.len());
    }
}

proof fn lemma_join_spaced(ws: Seq<Seq<char>>)
    requires
        ws.len() > 0,
    ensures
        spaced(ws, join_words(ws)),
    decreases ws.len(),
{
    let t = join_words(ws);
    let n = ws.len() as int;
    if n == 1 {
        assert(t == ws[0]);
        assert(word_start(ws, 0) == 0);
        assert(word_start(ws, 1) == ws[0].len() + 1);
        assert(t.subrange(0, ws[0].len() as int) =~= ws[0]);
    } else {
        let p = ws.drop_last();
        lemma_join_spaced(p);
        let tp = join_words(p);
        assert(ws =~= p.push(ws.last()));
        assert(t == tp + seq![' '] + ws.last());
        lemma_word_start_prefix(ws, n - 1);
        assert(word_start(p, n - 1) == word_start(ws, n - 1)) by {
            lemma_word_start_prefix(ws, n - 2);
            assert(word_start(p, n - 1) == word_start(p, n - 2) + p[n - 2].len() + 1);
        }
        assert(tp.len() + 1 == word_start(ws, n - 1));
        assert forall|i: int|
            0 <= i < ws.len() implies t.subrange(word_start(ws, i), word_start(ws, i) + ws[i].len()) == #[trigger] ws[i]
            && (i + 1 < ws.len() ==> t[word_start(ws, i) + ws[i].len()] == ' ') by {
            if i < n - 1 {
                lemma_spaced_earlier(p, tp, ws.last(), i);
            } else {
                assert(t.subrange(word_start(ws, i), word_start(ws, i) + ws[i].len()) =~= ws.last());
            }
        }
    }
}

/// The words of `args[k..]` as `scan_args` collects them are the free
/// words, for a `k` where no flag is waiting for its value.
proof fn lemma_scan_words(args: Seq<Seq<char>>, k: int)
    requires
        0 <= k <= args.len(),
        k == 0 || !read_as_flag(args, k - 1),
        scan_args(args.subrange(k, args.len() as int)) is Ok,
    ensures
        scan_args(args.subrange(k, args.len() as int))->Ok_0.0 == free_words_from(args, k),
    decreases args.len() - k,
{
    let s = args.subrange(k, args.len() as int);
    if k < args.len() {
        assert(s[0] == args[k]);
        if args[k] == due_flag() {
            assert(read_as_flag(args, k));
            assert(s.len() >= 2);
            assert(!read_as_flag(args, k + 1));
            assert(s.subrange(2, s.len() as int) =~= args.subrange(k + 2, args.len() as int));
            lemma_scan_words(args, k + 2);
            assert(!free_word(args, k));
            assert(!free_word(args, k + 1));
            assert(free_words_from(args, k) =~= free_words_from(args, k + 1));
            assert(free_words_from(args, k + 1) =~= free_words_from(args, k + 2));
        } else {
            assert(!read_as_flag(args, k));
            assert(free_word(args, k));
            assert(s.subrange(1, s.len() as int) =~= args.subrange(k + 1, args.len() as int));
            lemma_scan_words(args, k + 1);
        }
    } else {
        assert(s.len() == 0);
    }
}

/// The reminder text is every free word, in order, with single spaces
/// between them: the arguments other than each `--due` and the value after
/// it. Without free words the arguments are refused.
pub proof fn law_text_is_free_words(args: Seq<Seq<char>>)
    ensures
        parse_remind_spec(args) matches Ok(r) ==> spaced(free_words_from(args, 0), r.0),
        scan_args(args) is Ok && free_words_from(args, 0).len() == 0 ==> parse_remind_spec(args)
            == Err::<(Seq<char>, Option<Date>), RemindArgsFailure>(RemindArgsFailure::EmptyText),
{
    assert(args.subrange(0, args.len() as int) =~= args);
    if scan_args(args) is Ok {
        lemma_scan_words(args, 0);
        let w = scan_args(args)->Ok_0.0;
        if w.len() > 0 {
            lemma_join_spaced(w);
        }
    }
}

} // verus!
