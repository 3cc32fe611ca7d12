//! Text put safely into a remote shell command.

use vstd::prelude::*;

use crate::text::{from_chars, joined_text, to_chars};

verus! {

/// `s` with every single quote closed, escaped and opened again.
pub open spec fn escaped(s: Seq<char>) -> Seq<char>
    decreases s.len(),
{
    if s.len() == 0 {
        Seq::empty()
    } else if s.last() == '\'' {
        escaped(s.drop_last()) + seq!['\'', '\\', '\'', '\'']
    } else {
        escaped(s.drop_last()).push(s.last())
    }
}

/// `s` in single quotes.
pub open spec fn quoted(s: Seq<char>) -> Seq<char> {
    seq!['\''] + escaped(s) + seq!['\'']
}

/// Puts `s` in single quotes for a shell.
pub fn shell_quote(s: &str) -> (r: String)
    ensures
        r@ == quoted(s@),
{
    let chars: Vec<char> = to_chars(s);
    let mut out: Vec<char> = Vec::new();
    out.push('\'');
    let mut i: usize = 0;
    proof {
        assert(s@.take(0) == Seq::<char>::empty());
        assert(out@ =~= seq!['\''] + escaped(s@.take(0)));
    }
    while i < chars.len()
        invariant
            i <= chars@.len(),
            chars@ == s@,
            out@ == seq!['\''] + escaped(s@.take(i as int)),
        decreases chars.len() - i,
    {
        let ghost before = out@;
        proof {
            let t = s@.take(i + 1);
            assert(t.drop_last() == s@.take(i as int));
            assert(t.last() == s@[i as int]);
        }
        if chars[i] == '\'' {
            out.push('\'');
            out.push('\\');
            out.push('\'');
            out.push('\'');
            proof {
                assert(out@ =~= before + seq!['\'', '\\', '\'', '\'']);
                assert(out@ =~= seq!['\''] + escaped(s@.take(i + 1)));
            }
        } else {
            out.push(chars[i]);
            proof {
                assert(out@ =~= seq!['\''] + escaped(s@.take(i + 1)));
            }
        }
        i += 1;
    }
    out.push('\'');
    proof {
        assert(s@.take(i as int) == s@);
        assert(out@ =~= quoted(s@));
    }
    from_chars(&out)
}

/// What a POSIX shell makes of a word that consists of single-quoted parts and
/// backslash escapes: within quotes everything up to the next quote stands for
/// itself, outside a backslash makes the next character stand for itself.
/// Anything else would mean something to the shell.
pub open spec fn shell_word(s: Seq<char>, in_quotes: bool) -> Option<Seq<char>>
    decreases s.len(),
{
    if s.len() == 0 {
        if in_quotes {
            None
        } else {
            Some(Seq::empty())
        }
    } else if in_quotes {
        if s[0] == '\'' {
            shell_word(s.skip(1), false)
        } else {
            match shell_word(s.skip(1), true) {
                Some(rest) => Some(seq![s[0]] + rest),
                None => None,
            }
        }
    } else if s[0] == '\'' {
        shell_word(s.skip(1), true)
    } else if s[0] == '\\' && s.len() > 1 {
        match shell_word(s.skip(2), false) {
            Some(rest) => Some(seq![s[1]] + rest),
            None => None,
        }
    } else {
        None
    }
}

proof fn lemma_shell_word_of_escaped(s: Seq<char>, tail: Seq<char>)
    requires
        shell_word(tail, true) is Some,
    ensures
        shell_word(escaped(s) + tail, true) == Some(s + shell_word(tail, true)->0),
    decreases s.len(),
{
    let rest = shell_word(tail, true)->0;
    if s.len() == 0 {
        assert(escaped(s) + tail =~= tail);
        assert(s + rest =~= rest);
    } else {
        let c = s.last();
        let head = s.drop_last();
        if c == '\'' {
            let piece = seq!['\'', '\\', '\'', '\''];
            let more = piece + tail;
            assert(more[0] == '\'');
            assert(more.skip(1)[0] == '\\');
            assert(more.skip(1)[1] == '\'');
            assert(more.skip(1).skip(2) =~= seq!['\''] + tail);
            assert((seq!['\''] + tail).skip(1) =~= tail);
            assert(shell_word(seq!['\''] + tail, false) == Some(rest));
            assert(shell_word(more.skip(1), false) == Some(seq!['\''] + rest));
            assert(shell_word(more, true) == Some(seq!['\''] + rest));
            lemma_shell_word_of_escaped(head, more);
            assert(escaped(s) + tail =~= escaped(head) + more);
            assert(head + (seq!['\''] + rest) =~= s + rest);
        } else {
            let more = seq![c] + tail;
            assert(more.skip(1) =~= tail);
            assert(more[0] == c);
            assert(shell_word(more, true) == Some(seq![c] + rest));
            lemma_shell_word_of_escaped(head, more);
            assert(escaped(s) + tail =~= escaped(head) + more);
            assert(head + (seq![c] + rest) =~= s + rest);
        }
    }
}

/// A shell takes a quoted text for one word: that text, whatever is in it.
pub proof fn law_shell_reads_back(s: Seq<char>)
    ensures
        shell_word(quoted(s), false) == Some(s),
{
    let end = seq!['\''];
    let nothing = Seq::<char>::empty();
    assert(end.skip(1) =~= nothing);
    assert(shell_word(nothing, false) == Some(nothing));
    assert(shell_word(end, true) == Some(nothing));
    lemma_shell_word_of_escaped(s, end);
    assert(quoted(s).skip(1) =~= escaped(s) + end);
    assert(s + nothing =~= s);
}

/// The command that computes a file's hash on the remote host.
pub open spec fn hash_words(path: Seq<char>) -> Seq<char> {
    "xxhsum -H1 -- "@ + quoted(path)
}

/// The shell hands the hash command exactly the file's path as its last word, with
/// nothing in it that the shell or the command would take for something else.
pub proof fn law_hash_command(path: Seq<char>)
    ensures
        hash_words(path).len() > 14,
        shell_word(hash_words(path).skip(14), false) == Some(path),
        hash_words(path).subrange(11, 14) == seq!['-', '-', ' '],
{
    reveal_strlit("xxhsum -H1 -- ");
    law_shell_reads_back(path);
    assert(hash_words(path).skip(14) =~= quoted(path));
    assert(hash_words(path).subrange(11, 14) =~= seq!['-', '-', ' ']);
    assert(quoted(path).len() > 0);
}

/// The command that computes a file's hash on the remote host.
pub fn hash_command(path: &str) -> (r: String)
    ensures
        r@ == hash_words(path@),
        r@ == "xxhsum -H1 -- "@ + quoted(path@),
{
    joined_text("xxhsum -H1 -- ", shell_quote(path).as_str())
}

} // verus!
