//! What the terminal client shows of a line it receives from the server.
//!
//! A relayed line reads `ADDR:PORT: TEXT`. The client splits it at every
//! colon, takes the pieces after the first two (the address and the port),
//! and shows them joined by apostrophes.

use vstd::prelude::*;
use vstd::string::*;

verus! {

/// The pieces of `s` between occurrences of `sep`, in order; a text with `k`
/// separators has `k + 1` pieces, some of them possibly empty.
pub open spec fn split_on(s: Seq<char>, sep: char) -> Seq<Seq<char>>
    decreases s.len(),
{
    if s.len() == 0 {
        seq![Seq::<char>::empty()]
    } else {
        let rest = split_on(s.drop_first(), sep);
        if s[0] == sep {
            seq![Seq::<char>::empty()] + rest
        } else {
            rest.update(0, seq![s[0]] + rest[0])
        }
    }
}

/// `parts` written one after the other with `sep` between each two.
pub open spec fn join_with(parts: Seq<Seq<char>>, sep: Seq<char>) -> Seq<char>
    decreases parts.len(),
{
    if parts.len() == 0 {
        Seq::<char>::empty()
    } else if parts.len() == 1 {
        parts[0]
    } else {
        parts[0] + sep + join_with(parts.drop_first(), sep)
    }
}

/// The text shown for the received line `text`: its colon-separated pieces
/// from the third on, joined by apostrophes.
pub open spec fn shown_text(text: Seq<char>) -> Seq<char> {
    join_with(split_on(text, ':').skip(2), seq!['\''])
}

/// `s` with every colon turned into an apostrophe.
pub open spec fn colons_to_apostrophes(s: Seq<char>) -> Seq<char> {
    s.map_values(|c: char| if c == ':' { '\'' } else { c })
}

/// What follows the first `k` colons of `s` (nothing, when it has fewer).
spec fn after_colons(s: Seq<char>, k: nat) -> Seq<char>
    decreases s.len(),
{
    if k == 0 {
        s
    } else if s.len() == 0 {
        s
    } else if s[0] == ':' {
        after_colons(s.drop_first(), (k - 1) as nat)
    } else {
        after_colons(s.drop_first(), k)
    }
}

proof fn lemma_split_nonempty(s: Seq<char>, sep: char)
    ensures
        split_on(s, sep).len() >= 1,
    decreases s.len(),
{
    if s.len() > 0 {
        lemma_split_nonempty(s.drop_first(), sep);
    }
}

/// Joining the pieces with apostrophes turns each colon into an apostrophe.
proof fn lemma_join_split(t: Seq<char>)
    ensures
        join_with(split_on(t, ':'), seq!['\'']) == colons_to_apostrophes(t),
    decreases t.len(),
{
    let sep = seq!['\''];
    if t.len() == 0 {
        assert(colons_to_apostrophes(t) =~= Seq::<char>::empty());
    } else {
        let rest = t.drop_first();
        let r = split_on(rest, ':');
        lemma_split_nonempty(rest, ':');
        lemma_join_split(rest);
        assert(colons_to_apostrophes(t) =~= seq![
            if t[0] == ':' { '\'' } else { t[0] },
        ] + colons_to_apostrophes(rest));
        if t[0] == ':' {
            let parts = seq![Seq::<char>::empty()] + r;
            assert(parts.drop_first() =~= r);
            assert(join_with(parts, sep) == parts[0] + sep + join_with(r, sep));
            assert(join_with(parts, sep) =~= colons_to_apostrophes(t));
        } else {
            let parts = r.update(0, seq![t[0]] + r[0]);
            if r.len() == 1 {
                assert(join_with(parts, sep) =~= colons_to_apostrophes(t));
            } else {
                assert(parts.drop_first() =~= r.drop_first());
                assert(join_with(parts, sep) =~= colons_to_apostrophes(t));
            }
        }
    }
}

/// Past a colon, the pieces are those of the text after the first colon.
proof fn lemma_split_skip_one(s: Seq<char>)
    requires
        s.contains(':'),
    ensures
        split_on(s, ':').len() >= 2,
        split_on(s, ':').skip(1) == split_on(after_colons(s, 1), ':'),
    decreases s.len(),
{
    let rest = s.drop_first();
    let r = split_on(rest, ':');
    lemma_split_nonempty(rest, ':');
    let i = choose|i: int| 0 <= i < s.len() && s[i] == ':';
    assert(s.len() > 0);
    if s[0] == ':' {
        assert(split_on(s, ':') == seq![Seq::<char>::empty()] + r);
        assert(after_colons(s, 1) == after_colons(rest, 0));
        assert((seq![Seq::<char>::empty()] + r).skip(1) =~= r);
    } else {
        assert(rest[i - 1] == ':');
        assert(rest.contains(':'));
        lemma_split_skip_one(rest);
        assert(split_on(s, ':') == r.update(0, seq![s[0]] + r[0]));
        assert(after_colons(s, 1) == after_colons(rest, 1));
        assert(r.update(0, seq![s[0]] + r[0]).skip(1) =~= r.skip(1));
    }
}

/// A non-empty text without colons starts with something else, and its rest
/// holds no colon either.
proof fn lemma_no_colon_parts(s: Seq<char>)
    requires
        s.len() > 0,
        !s.contains(':'),
    ensures
        s[0] != ':',
        !s.drop_first().contains(':'),
{
    let rest = s.drop_first();
    if rest.contains(':') {
        let i = choose|i: int| 0 <= i < rest.len() && rest[i] == ':';
        assert(s[i + 1] == ':');
    }
    if s[0] == ':' {
        assert(s.contains(':'));
    }
}

/// A text without colons is a single piece.
proof fn lemma_split_no_sep(s: Seq<char>)
    requires
        !s.contains(':'),
    ensures
        split_on(s, ':') == seq![s],
        after_colons(s, 1) == Seq::<char>::empty(),
    decreases s.len(),
{
    if s.len() > 0 {
        let rest = s.drop_first();
        lemma_no_colon_parts(s);
        lemma_split_no_sep(rest);
        assert(seq![s[0]] + rest =~= s);
        assert(seq![s].update(0, s) =~= seq![s]);
    } else {
        assert(s =~= Seq::<char>::empty());
    }
}

/// The shown text is what follows the second colon, with colons turned into
/// apostrophes.
proof fn lemma_shown_text(s: Seq<char>)
    requires
        s.contains(':'),
    ensures
        shown_text(s) == colons_to_apostrophes(after_colons(after_colons(s, 1), 1)),
{
    let a1 = after_colons(s, 1);
    lemma_split_skip_one(s);
    lemma_split_nonempty(a1, ':');
    assert(split_on(s, ':').len() >= 2);
    assert(split_on(s, ':').skip(2) =~= split_on(s, ':').skip(1).skip(1));
    if a1.contains(':') {
        lemma_split_skip_one(a1);
        lemma_join_split(after_colons(a1, 1));
    } else {
        lemma_split_no_sep(a1);
        assert(seq![a1].skip(1) =~= Seq::<Seq<char>>::empty());
        assert(colons_to_apostrophes(Seq::<char>::empty()) =~= Seq::<char>::empty());
    }
}

/// The text shown for a received line, which must hold a colon (the client
/// cannot show a line without one).
pub fn message_body(text: &str) -> (shown: String)
    requires
        text@.contains(':'),
    ensures
        shown@ == shown_text(text@),
{
    let n = text.unicode_len();
    let ghost s = text@;
    let ghost target = after_colons(after_colons(s, 1), 1);
    let mut shown = String::new();
    let mut seen: u8 = 0;
    let mut i: usize = 0;
    assert(s.skip(0) =~= s);
    while i < n
        invariant
            n == s.len(),
            s == text@,
            target == after_colons(after_colons(s, 1), 1),
            i <= n,
            seen <= 2,
            seen == 0 ==> shown@.len() == 0 && target == after_colons(after_colons(s.skip(i as int), 1), 1),
            seen == 1 ==> shown@.len() == 0 && target == after_colons(s.skip(i as int), 1),
            seen == 2 ==> colons_to_apostrophes(target) == shown@ + colons_to_apostrophes(s.skip(i as int)),
        decreases n - i,
    {
        let c = text.get_char(i);
        let ghost rem = s.skip(i as int);
        assert(rem[0] == c);
        assert(rem.drop_first() =~= s.skip(i + 1));
        assert(rem.len() > 0);
        if seen < 2 {
            if c == ':' {
                assert(after_colons(rem, 1) == after_colons(s.skip(i + 1), 0));
                assert(shown@ + colons_to_apostrophes(s.skip(i + 1)) =~= colons_to_apostrophes(s.skip(i + 1)));
                seen = seen + 1;
            } else {
                assert(after_colons(rem, 1) == after_colons(s.skip(i + 1), 1));
            }
        } else {
            assert(colons_to_apostrophes(rem) =~= seq![
                if c == ':' { '\'' } else { c },
            ] + colons_to_apostrophes(s.skip(i + 1)));
            let ghost before = shown@;
            if c == ':' {
                proof {
                    reveal_strlit("'");
                    assert("'"@ =~= seq!['\'']);
                }
                shown.append("'");
                assert(shown@ =~= before + seq!['\'']);
            } else {
                shown.append(text.substring_char(i, i + 1));
                assert(s.subrange(i as int, i + 1) =~= seq![c]);
                assert(shown@ =~= before + seq![c]);
            }
            assert(shown@ == before + seq![if c == ':' { '\'' } else { c }]);
            assert(before + colons_to_apostrophes(rem) =~= shown@ + colons_to_apostrophes(s.skip(i + 1)));
        }
        i = i + 1;
    }
    proof {
        assert(s.skip(n as int) =~= Seq::<char>::empty());
        assert(colons_to_apostrophes(Seq::<char>::empty()) =~= Seq::<char>::empty());
        lemma_shown_text(s);
        assert(shown@ =~= colons_to_apostrophes(target));
    }
    shown
}

/// What follows the first colon of `a + ":" + b`, when `a` holds none, is `b`.
proof fn lemma_after_first_colon(a: Seq<char>, b: Seq<char>)
    requires
        !a.contains(':'),
    ensures
        after_colons(a + seq![':'] + b, 1) == b,
    decreases a.len(),
{
    let s = a + seq![':'] + b;
    if a.len() == 0 {
        assert(s[0] == ':');
        assert(s.drop_first() =~= b);
        assert(after_colons(s, 1) == after_colons(s.drop_first(), 0));
    } else {
        assert(s[0] == a[0]);
        let rest = a.drop_first();
        lemma_no_colon_parts(a);
        assert(s.drop_first() =~= rest + seq![':'] + b);
        lemma_after_first_colon(rest, b);
        assert(after_colons(s, 1) == after_colons(s.drop_first(), 1));
    }
}

/// The text shown for a received line holds no colon.
pub proof fn lemma_shown_text_has_no_colon(text: Seq<char>)
    requires
        text.contains(':'),
    ensures
        !shown_text(text).contains(':'),
{
    lemma_shown_text(text);
    let t = after_colons(after_colons(text, 1), 1);
    let shown = colons_to_apostrophes(t);
    if shown.contains(':') {
        let i = choose|i: int| 0 <= i < shown.len() && shown[i] == ':';
        assert(shown[i] == (if t[i] == ':' { '\'' } else { t[i] }));
    }
}

/// A line that the server relays from the peer at `host:port` (an address
/// without further colons) is shown by the client as a space followed by what
/// the peer wrote, with its colons turned into apostrophes.
pub proof fn lemma_relayed_line_shows_its_text(host: Seq<char>, port: Seq<char>, contents: Seq<char>)
    requires
        !host.contains(':'),
        !port.contains(':'),
    ensures
        shown_text(crate::state::chat_line(host + seq![':'] + port, contents))
            == seq![' '] + colons_to_apostrophes(contents),
        ({
            let shown = shown_text(crate::state::chat_line(host + seq![':'] + port, contents));
            &&& shown.len() == contents.len() + 1
            &&& shown[0] == ' '
            &&& forall|i: int|
                0 <= i < contents.len() ==> shown[i + 1] == (if #[trigger] contents[i] == ':' {
                    '\''
                } else {
                    contents[i]
                })
        }),
{
    reveal_strlit(": ");
    assert(": "@ =~= seq![':', ' ']);
    let line = crate::state::chat_line(host + seq![':'] + port, contents);
    let tail = seq![' '] + contents;
    assert(line =~= host + seq![':'] + (port + seq![':'] + tail));
    assert(line.contains(':')) by {
        assert(line[host.len() as int] == ':');
    }
    lemma_after_first_colon(host, port + seq![':'] + tail);
    lemma_after_first_colon(port, tail);
    lemma_shown_text(line);
    assert(colons_to_apostrophes(tail) =~= seq![' '] + colons_to_apostrophes(contents));
}

} // verus!
