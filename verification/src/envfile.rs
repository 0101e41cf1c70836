//! Parsing of `.env`-style import files: lines of `KEY=VALUE` with
//! optionally quoted keys and values; lines that are blank or contain `#`
//! anywhere are ignored; any other line without a `=` separator fails the
//! whole read, reporting the file and the 0-based index of the offending
//! line among the kept lines.

use vstd::prelude::*;

verus! {

use crate::config::EnvVariable;
use crate::config::EnvVariableV;
use crate::strutil::find_char;
use crate::strutil::first_index_of;
use crate::strutil::is_blank;
use crate::strutil::line_is_blank;
use crate::utils::spec_trim_quotes;
use crate::utils::trim_quotes;

/// The raw pieces of `s` split at every newline; always at least one piece.
pub open spec fn split_lines(s: Seq<char>) -> Seq<Seq<char>>
    decreases s.len(),
{
    match first_index_of(s, '\n') {
        Some(i) => {
            let rest = if 0 <= i && i < s.len() {
                s.skip(i + 1)
            } else {
                Seq::<char>::empty()
            };
            seq![s.take(i)] + split_lines(rest)
        },
        None => seq![s],
    }
}

/// A piece with one trailing carriage return removed, as the line splitter
/// of the standard library does.
pub open spec fn strip_cr(l: Seq<char>) -> Seq<char> {
    if l.len() > 0 && l.last() == '\r' {
        l.drop_last()
    } else {
        l
    }
}

/// The lines of `s`: newline-split pieces, without the empty piece after a
/// final newline, each with a trailing carriage return removed.
pub open spec fn lines_of(s: Seq<char>) -> Seq<Seq<char>> {
    let ps = split_lines(s);
    let ps2 = if ps.last().len() == 0 {
        ps.drop_last()
    } else {
        ps
    };
    ps2.map_values(|l: Seq<char>| strip_cr(l))
}

/// A line takes part in parsing unless it holds a `#` anywhere or is blank.
pub open spec fn keep_line(l: Seq<char>) -> bool {
    first_index_of(l, '#') is None && !is_blank(l)
}

/// The lines that take part in parsing, in order.
pub open spec fn kept_of(ls: Seq<Seq<char>>) -> Seq<Seq<char>>
    decreases ls.len(),
{
    if ls.len() == 0 {
        Seq::<Seq<char>>::empty()
    } else {
        (if keep_line(ls.first()) {
            seq![ls.first()]
        } else {
            Seq::<Seq<char>>::empty()
        }) + kept_of(ls.drop_first())
    }
}

/// The variable a kept line declares: key and value split at the first
/// `=`, each stripped of one matching pair of quotes.
pub open spec fn var_of_line(l: Seq<char>, eq: int) -> EnvVariableV {
    EnvVariableV { name: spec_trim_quotes(l.take(eq)), value: spec_trim_quotes(l.skip(eq + 1)) }
}

/// Parsing the kept lines: every line must hold a `=`; the first one that
/// does not fails the parse with its 0-based index among the kept lines and
/// its text.
pub open spec fn parse_kept(ls: Seq<Seq<char>>) -> Result<Seq<EnvVariableV>, (int, Seq<char>)>
    decreases ls.len(),
{
    if ls.len() == 0 {
        Ok(Seq::<EnvVariableV>::empty())
    } else {
        match first_index_of(ls.first(), '=') {
            None => Err((0, ls.first())),
            Some(eq) => match parse_kept(ls.drop_first()) {
                Ok(vs) => Ok(seq![var_of_line(ls.first(), eq)] + vs),
                Err(e) => Err((e.0 + 1, e.1)),
            },
        }
    }
}

/// What parsing an import file's content yields.
pub open spec fn spec_parse_env(s: Seq<char>) -> Result<Seq<EnvVariableV>, (int, Seq<char>)> {
    parse_kept(kept_of(lines_of(s)))
}

/// A malformed import file: the named file holds, at the 0-based index
/// `line` among its kept lines, the text `text` without a `=` separator.
#[derive(Debug, PartialEq, Eq)]
pub struct ImportError {
    pub file: String,
    pub line: usize,
    pub text: String,
}

/// Splits `s` at every newline into owned pieces.
fn split_at_newlines(s: &str) -> (r: Vec<String>)
    ensures
        r.deep_view() == split_lines(s@),
    decreases s@.len(),
{
    let n = s.unicode_len();
    match find_char(s, '\n') {
        Some(i) => {
            let piece = s.substring_char(0, i).to_owned();
            let rest = s.substring_char(i + 1, n);
            proof {
                crate::strutil::lemma_first_index_of(s@, '\n');
                assert(piece@ =~= s@.take(i as int));
                assert(rest@ =~= s@.skip(i as int + 1));
            }
            let mut tail = split_at_newlines(rest);
            let ghost prev = tail@;
            let ghost prev_dv = tail.deep_view();
            tail.insert(0, piece);
            proof {
                assert forall|j: int| 0 <= j < tail@.len() implies tail.deep_view()[j] == (
                seq![s@.take(i as int)] + split_lines(rest@))[j] by {
                    assert(tail@ == prev.insert(0, piece));
                    assert(tail.deep_view()[j] == tail@[j].deep_view());
                    if j == 0 {
                        assert(tail@[0] == piece);
                    } else {
                        assert(tail@[j] == prev[j - 1]);
                        assert(prev[j - 1].deep_view() == prev_dv[j - 1]);
                    }
                }
                assert(tail.deep_view() =~= seq![s@.take(i as int)] + split_lines(rest@));
            }
            tail
        },
        None => {
            let mut out: Vec<String> = Vec::new();
            out.push(s.to_owned());
            proof {
                assert(out.deep_view() =~= seq![s@]);
            }
            out
        },
    }
}

/// Splits `content` into its lines.
fn content_lines(content: &str) -> (r: Vec<String>)
    ensures
        r.deep_view() == lines_of(content@),
{
    let ghost full = content@;
    let mut pieces = split_at_newlines(content);
    let ghost ps = split_lines(full);
    proof {
        assert(ps.len() >= 1);
    }
    let last_idx = pieces.len() - 1;
    let last_empty = pieces[last_idx].as_str().unicode_len() == 0;
    if last_empty {
        let ghost prev = pieces@;
        let ghost prev_dv = pieces.deep_view();
        pieces.pop();
        proof {
            assert(pieces@ =~= prev.drop_last());
            assert forall|j: int| 0 <= j < pieces@.len() implies pieces.deep_view()[j]
                == ps.drop_last()[j] by {
                assert(pieces@[j] == prev[j]);
                assert(prev[j].deep_view() == prev_dv[j]);
            }
            assert(pieces.deep_view() =~= ps.drop_last());
            assert(ps.last().len() == 0);
        }
    } else {
        proof {
            assert(ps.last().len() != 0);
        }
    }
    let ghost ps2 = if ps.last().len() == 0 {
        ps.drop_last()
    } else {
        ps
    };
    proof {
        assert(pieces.deep_view() == ps2);
    }
    let mut out: Vec<String> = Vec::new();
    let mut i: usize = 0;
    while i < pieces.len()
        invariant
            i <= pieces.len(),
            pieces.deep_view() == ps2,
            pieces@.len() == ps2.len(),
            out@.len() == i,
            forall|j: int| 0 <= j < i ==> out.deep_view()[j] == strip_cr(ps2[j]),
        decreases pieces.len() - i,
    {
        let n = pieces[i].as_str().unicode_len();
        proof {
            assert(pieces@[i as int].deep_view() == ps2[i as int]);
        }
        let stripped: String = if n > 0 && pieces[i].as_str().get_char(n - 1) == '\r' {
            let t = pieces[i].as_str().substring_char(0, n - 1).to_owned();
            proof {
                assert(t@ =~= ps2[i as int].drop_last());
            }
            t
        } else {
            pieces[i].clone()
        };
        proof {
            assert(stripped@ == strip_cr(ps2[i as int]));
        }
        let ghost prev = out@;
        let ghost prev_dv = out.deep_view();
        out.push(stripped);
        proof {
            assert forall|j: int| 0 <= j <= i implies out.deep_view()[j] == strip_cr(ps2[j]) by {
                assert(out@ == prev.push(stripped));
                assert(out.deep_view()[j] == out@[j].deep_view());
                if j < i {
                    assert(out@[j] == prev[j]);
                    assert(prev[j].deep_view() == prev_dv[j]);
                } else {
                    assert(out@[j] == stripped);
                }
            }
        }
        i = i + 1;
    }
    proof {
        assert(out.deep_view() =~= ps2.map_values(|l: Seq<char>| strip_cr(l)));
    }
    out
}

/// Keeps the lines that take part in parsing.
fn kept_lines(lines: &Vec<String>) -> (r: Vec<String>)
    ensures
        r.deep_view() == kept_of(lines.deep_view()),
{
    let ghost ldv = lines.deep_view();
    let mut kept: Vec<String> = Vec::new();
    proof {
        assert(ldv.skip(0) =~= ldv);
        assert(kept.deep_view() =~= Seq::<Seq<char>>::empty());
        assert(kept.deep_view() + kept_of(ldv.skip(0)) =~= kept_of(ldv));
    }
    let mut i: usize = 0;
    while i < lines.len()
        invariant
            i <= lines.len(),
            lines@.len() == ldv.len(),
            ldv == lines.deep_view(),
            kept.deep_view() + kept_of(ldv.skip(i as int)) == kept_of(ldv),
        decreases lines.len() - i,
    {
        proof {
            assert(ldv.skip(i as int).first() == ldv[i as int]);
            assert(ldv.skip(i as int).drop_first() =~= ldv.skip(i as int + 1));
            assert(ldv[i as int] == lines@[i as int].deep_view());
        }
        let keep = find_char(lines[i].as_str(), '#').is_none() && !line_is_blank(
            lines[i].as_str(),
        );
        let ghost prev_kept = kept.deep_view();
        if keep {
            let ghost prev = kept@;
            let owned = lines[i].clone();
            kept.push(owned);
            proof {
                assert forall|j: int| 0 <= j < kept@.len() implies kept.deep_view()[j]
                    == prev_kept.push(ldv[i as int])[j] by {
                    assert(kept@ == prev.push(owned));
                    assert(kept.deep_view()[j] == kept@[j].deep_view());
                    if j < prev.len() {
                        assert(kept@[j] == prev[j]);
                        assert(prev[j].deep_view() == prev_kept[j]);
                    } else {
                        assert(kept@[j] == owned);
                    }
                }
                assert(kept.deep_view() =~= prev_kept.push(ldv[i as int]));
                assert(keep_line(ldv[i as int]));
                assert(kept_of(ldv.skip(i as int)) == seq![ldv[i as int]] + kept_of(
                    ldv.skip(i as int + 1),
                ));
                assert(kept.deep_view() + kept_of(ldv.skip(i as int + 1)) =~= prev_kept + kept_of(
                    ldv.skip(i as int),
                ));
            }
        } else {
            proof {
                assert(!keep_line(ldv[i as int]));
                assert(kept_of(ldv.skip(i as int)) =~= Seq::<Seq<char>>::empty() + kept_of(
                    ldv.skip(i as int + 1),
                ));
                assert(kept_of(ldv.skip(i as int)) == kept_of(ldv.skip(i as int + 1)));
            }
        }
        i = i + 1;
    }
    proof {
        assert(ldv.skip(lines@.len() as int) =~= Seq::<Seq<char>>::empty());
        assert(kept.deep_view() + kept_of(ldv.skip(lines@.len() as int)) =~= kept.deep_view());
    }
    kept
}

/// Parses the content of an import file: `KEY=VALUE` lines, values and
/// keys optionally wrapped in matching quotes; blank lines and lines with
/// a `#` are ignored; the first other line without a `=` fails the whole
/// read with `file_name`, the line's 0-based index among the kept lines,
/// and its text.
pub fn parse_env_file(content: &str, file_name: &str) -> (r: Result<
    Vec<EnvVariable>,
    ImportError,
>)
    ensures
        match spec_parse_env(content@) {
            Ok(vs) => r matches Ok(v) && v.deep_view() == vs,
            Err(e) => r matches Err(ie) && ie.file@ == file_name@ && ie.line as int == e.0
                && ie.text@ == e.1,
        },
{
    let lines = content_lines(content);
    let kept = kept_lines(&lines);
    let ghost kdv = kept.deep_view();
    let mut out: Vec<EnvVariable> = Vec::new();
    proof {
        assert(kdv.skip(0) =~= kdv);
        assert(out.deep_view() =~= Seq::<EnvVariableV>::empty());
    }
    let mut i: usize = 0;
    while i < kept.len()
        invariant
            i <= kept.len(),
            kept@.len() == kdv.len(),
            kdv == kept.deep_view(),
            out.deep_view().len() == i,
            kdv == kept_of(lines_of(content@)),
            match parse_kept(kdv.skip(i as int)) {
                Ok(vs) => parse_kept(kdv) == Ok::<Seq<EnvVariableV>, (int, Seq<char>)>(
                    out.deep_view() + vs,
                ),
                Err(e) => parse_kept(kdv) == Err::<Seq<EnvVariableV>, (int, Seq<char>)>(
                    (e.0 + i, e.1),
                ),
            },
        decreases kept.len() - i,
    {
        proof {
            assert(kdv.skip(i as int).first() == kdv[i as int]);
            assert(kdv.skip(i as int).drop_first() =~= kdv.skip(i as int + 1));
            assert(kdv[i as int] == kept@[i as int].deep_view());
        }
        let line = &kept[i];
        let n = line.as_str().unicode_len();
        match find_char(line.as_str(), '=') {
            None => {
                proof {
                    assert(parse_kept(kdv.skip(i as int)) == Err::<Seq<EnvVariableV>, (
                        int,
                        Seq<char>,
                    )>((0, kdv[i as int])));
                }
                return Err(
                    ImportError { file: file_name.to_owned(), line: i, text: kept[i].clone() },
                );
            },
            Some(eq) => {
                let key = trim_quotes(line.as_str().substring_char(0, eq));
                let value = trim_quotes(line.as_str().substring_char(eq + 1, n));
                let ev = EnvVariable { name: key, value };
                proof {
                    assert(line@.take(eq as int) =~= line@.subrange(0, eq as int));
                    assert(line@.skip(eq as int + 1) =~= line@.subrange(eq as int + 1, n as int));
                    assert(ev.deep_view() == var_of_line(kdv[i as int], eq as int));
                }
                let ghost prev = out@;
                let ghost prev_dv = out.deep_view();
                out.push(ev);
                proof {
                    assert forall|j: int| 0 <= j < out@.len() implies out.deep_view()[j]
                        == prev_dv.push(var_of_line(kdv[i as int], eq as int))[j] by {
                        assert(out@ == prev.push(ev));
                        assert(out.deep_view()[j] == out@[j].deep_view());
                        if j < prev.len() {
                            assert(out@[j] == prev[j]);
                            assert(prev[j].deep_view() == prev_dv[j]);
                        } else {
                            assert(out@[j] == ev);
                        }
                    }
                    assert(out.deep_view() =~= prev_dv.push(
                        var_of_line(kdv[i as int], eq as int),
                    ));
                    match parse_kept(kdv.skip(i as int + 1)) {
                        Ok(vs) => {
                            assert(parse_kept(kdv.skip(i as int)) == Ok::<Seq<EnvVariableV>, (
                                int,
                                Seq<char>,
                            )>(seq![var_of_line(kdv[i as int], eq as int)] + vs));
                            assert(prev_dv + (seq![var_of_line(kdv[i as int], eq as int)] + vs)
                                =~= out.deep_view() + vs);
                        },
                        Err(e) => {
                            assert(parse_kept(kdv.skip(i as int)) == Err::<Seq<EnvVariableV>, (
                                int,
                                Seq<char>,
                            )>((e.0 + 1, e.1)));
                        },
                    }
                }
                i = i + 1;
            },
        }
    }
    proof {
        assert(kdv.skip(kept@.len() as int) =~= Seq::<Seq<char>>::empty());
        assert(out.deep_view() + Seq::<EnvVariableV>::empty() =~= out.deep_view());
    }
    Ok(out)
}

} // verus!
