//! Line and token structure of the text formats the renderer reads and
//! writes.
//!
//! Both the mesh format and the image format are line-oriented ASCII
//! text, handled here as raw bytes: a text is a sequence of lines
//! separated by line feeds, and a line is a sequence of tokens separated
//! by whitespace.

use vstd::prelude::*;

verus! {

/// ASCII whitespace: the token separators of the line formats.
pub open spec fn is_space(b: u8) -> bool {
    b == 0x20 || b == 0x09 || b == 0x0a || b == 0x0b || b == 0x0c || b == 0x0d
}

/// A line with a trailing carriage return loses it, so text written with
/// CRLF line endings reads the same as text written with LF alone.
pub open spec fn strip_cr(line: Seq<u8>) -> Seq<u8> {
    if line.len() > 0 && line.last() == 0x0d {
        line.drop_last()
    } else {
        line
    }
}

pub open spec fn split_lines_from(rest: Seq<u8>, cur: Seq<u8>) -> Seq<Seq<u8>>
    decreases rest.len(),
{
    if rest.len() == 0 {
        if cur.len() == 0 {
            Seq::empty()
        } else {
            seq![strip_cr(cur)]
        }
    } else if rest[0] == 0x0a {
        seq![strip_cr(cur)] + split_lines_from(rest.skip(1), Seq::empty())
    } else {
        split_lines_from(rest.skip(1), cur.push(rest[0]))
    }
}

/// The lines of `text`: separated by line feeds, each stripped of a
/// trailing carriage return; a final line feed opens no further line.
pub open spec fn split_lines(text: Seq<u8>) -> Seq<Seq<u8>> {
    split_lines_from(text, Seq::empty())
}

pub open spec fn split_tokens_from(rest: Seq<u8>, cur: Seq<u8>) -> Seq<Seq<u8>>
    decreases rest.len(),
{
    if rest.len() == 0 {
        if cur.len() == 0 {
            Seq::empty()
        } else {
            seq![cur]
        }
    } else if is_space(rest[0]) {
        if cur.len() == 0 {
            split_tokens_from(rest.skip(1), Seq::empty())
        } else {
            seq![cur] + split_tokens_from(rest.skip(1), Seq::empty())
        }
    } else {
        split_tokens_from(rest.skip(1), cur.push(rest[0]))
    }
}

/// The whitespace-separated tokens of a line, in order; whitespace runs
/// of any length separate tokens, and none opens an empty token.
pub open spec fn tokens_of(line: Seq<u8>) -> Seq<Seq<u8>> {
    split_tokens_from(line, Seq::empty())
}

fn byte_is_space(b: u8) -> (r: bool)
    ensures
        r == is_space(b),
{
    b == 0x20 || b == 0x09 || b == 0x0a || b == 0x0b || b == 0x0c || b == 0x0d
}

fn finish_line(line: Vec<u8>) -> (r: Vec<u8>)
    ensures
        r@ == strip_cr(line@),
{
    let ghost orig = line@;
    let mut line = line;
    if line.len() > 0 && line[line.len() - 1] == 0x0d {
        let _last = line.pop();
        proof {
            assert(line@ =~= strip_cr(orig));
        }
    }
    line
}

/// Splits a text into its lines.
pub fn split_into_lines(text: &[u8]) -> (lines: Vec<Vec<u8>>)
    ensures
        lines@.map_values(|l: Vec<u8>| l@) == split_lines(text@),
{
    let ghost whole = split_lines(text@);
    let mut lines: Vec<Vec<u8>> = Vec::new();
    let mut cur: Vec<u8> = Vec::new();
    let mut i: usize = 0;
    proof {
        assert(text@.skip(0) =~= text@);
        assert(lines@.map_values(|l: Vec<u8>| l@) + split_lines_from(text@, cur@) =~= whole);
    }
    while i < text.len()
        invariant
            i <= text@.len(),
            whole == split_lines(text@),
            lines@.map_values(|l: Vec<u8>| l@) + split_lines_from(text@.skip(i as int), cur@)
                == whole,
        decreases text@.len() - i,
    {
        let ghost rest = text@.skip(i as int);
        let ghost prev = lines@.map_values(|l: Vec<u8>| l@);
        let ghost cur0 = cur@;
        proof {
            assert(rest.skip(1) =~= text@.skip(i + 1));
        }
        let b = text[i];
        assert(b == rest[0]);
        if b == 0x0a {
            let done = finish_line(cur);
            cur = Vec::new();
            lines.push(done);
            proof {
                assert(cur@ =~= Seq::<u8>::empty());
                assert(lines@.map_values(|l: Vec<u8>| l@) =~= prev.push(done@));
                assert(split_lines_from(rest, cur0)
                    == seq![strip_cr(cur0)] + split_lines_from(rest.skip(1), Seq::empty()));
                assert(prev.push(done@) + split_lines_from(text@.skip(i + 1), cur@)
                    =~= prev + split_lines_from(rest, cur0));
            }
        } else {
            cur.push(b);
            proof {
                assert(split_lines_from(rest, cur0)
                    == split_lines_from(text@.skip(i + 1), cur@));
            }
        }
        i = i + 1;
    }
    proof {
        assert(text@.skip(i as int) =~= Seq::<u8>::empty());
    }
    if cur.len() > 0 {
        let ghost prev = lines@.map_values(|l: Vec<u8>| l@);
        let ghost cur0 = cur@;
        let done = finish_line(cur);
        lines.push(done);
        proof {
            assert(lines@.map_values(|l: Vec<u8>| l@) =~= prev.push(done@));
            assert(prev.push(done@) =~= prev + split_lines_from(Seq::<u8>::empty(), cur0));
        }
    }
    proof {
        assert(lines@.map_values(|l: Vec<u8>| l@) =~= whole);
    }
    lines
}

/// Splits a line into its whitespace-separated tokens.
pub fn split_tokens(line: &[u8]) -> (tokens: Vec<Vec<u8>>)
    ensures
        tokens@.map_values(|t: Vec<u8>| t@) == tokens_of(line@),
{
    let ghost whole = tokens_of(line@);
    let mut tokens: Vec<Vec<u8>> = Vec::new();
    let mut cur: Vec<u8> = Vec::new();
    let mut i: usize = 0;
    proof {
        assert(line@.skip(0) =~= line@);
        assert(tokens@.map_values(|t: Vec<u8>| t@) + split_tokens_from(line@, cur@) =~= whole);
    }
    while i < line.len()
        invariant
            i <= line@.len(),
            whole == tokens_of(line@),
            tokens@.map_values(|t: Vec<u8>| t@) + split_tokens_from(line@.skip(i as int), cur@)
                == whole,
        decreases line@.len() - i,
    {
        let ghost rest = line@.skip(i as int);
        let ghost prev = tokens@.map_values(|t: Vec<u8>| t@);
        let ghost cur0 = cur@;
        proof {
            assert(rest.skip(1) =~= line@.skip(i + 1));
        }
        let b = line[i];
        assert(b == rest[0]);
        if byte_is_space(b) {
            if cur.len() > 0 {
                let done = cur;
                cur = Vec::new();
                tokens.push(done);
                proof {
                    assert(cur@ =~= Seq::<u8>::empty());
                    assert(tokens@.map_values(|t: Vec<u8>| t@) =~= prev.push(done@));
                    assert(prev.push(done@) + split_tokens_from(line@.skip(i + 1), cur@)
                        =~= prev + split_tokens_from(rest, cur0));
                }
            } else {
                proof {
                    assert(cur0 =~= Seq::<u8>::empty());
                    assert(split_tokens_from(rest, cur0)
                        == split_tokens_from(line@.skip(i + 1), cur@));
                }
            }
        } else {
            cur.push(b);
            proof {
                assert(split_tokens_from(rest, cur0)
                    == split_tokens_from(line@.skip(i + 1), cur@));
            }
        }
        i = i + 1;
    }
    proof {
        assert(line@.skip(i as int) =~= Seq::<u8>::empty());
    }
    if cur.len() > 0 {
        let ghost prev = tokens@.map_values(|t: Vec<u8>| t@);
        let done = cur;
        tokens.push(done);
        proof {
            assert(tokens@.map_values(|t: Vec<u8>| t@) =~= prev.push(done@));
            assert(prev.push(done@) =~= prev + split_tokens_from(Seq::<u8>::empty(), done@));
        }
    }
    proof {
        assert(tokens@.map_values(|t: Vec<u8>| t@) =~= whole);
    }
    tokens
}

} // verus!
