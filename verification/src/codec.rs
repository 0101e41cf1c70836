//! The cache file codec: a deterministic JSON rendering of the cache —
//! object keys in fixed order, no whitespace, strings escaped — and a
//! strict parser accepting exactly that rendering. Parsing inverts
//! serialization; any text the parser refuses is treated by callers as a
//! missing cache.

use vstd::prelude::*;

verus! {

use crate::cache::Cache;
use crate::cache::CacheEntry;
use crate::cache::CacheEntryV;
use crate::cache::CacheV;
use crate::cache::DirCache;
use crate::cache::DirCacheV;
use crate::config::EnvAlias;
use crate::config::EnvAliasV;
use crate::config::EnvVariable;
use crate::config::EnvVariableV;

/// How one character is written inside a JSON string: quote, backslash,
/// newline, carriage return and tab are escaped, everything else stands
/// for itself.
pub open spec fn escape_char(c: char) -> Seq<char> {
    if c == '"' {
        seq!['\\', '"']
    } else if c == '\\' {
        seq!['\\', '\\']
    } else if c == '\n' {
        seq!['\\', 'n']
    } else if c == '\r' {
        seq!['\\', 'r']
    } else if c == '\t' {
        seq!['\\', 't']
    } else {
        seq![c]
    }
}

/// A string's characters, escaped in order.
pub open spec fn escape_seq(s: Seq<char>) -> Seq<char>
    decreases s.len(),
{
    if s.len() == 0 {
        Seq::<char>::empty()
    } else {
        escape_char(s[0]) + escape_seq(s.drop_first())
    }
}

/// A JSON string literal.
pub open spec fn ser_string(s: Seq<char>) -> Seq<char> {
    seq!['"'] + escape_seq(s) + seq!['"']
}

/// The comma-separated items of a JSON array of strings.
pub open spec fn ser_string_items(ls: Seq<Seq<char>>) -> Seq<char>
    decreases ls.len(),
{
    if ls.len() == 0 {
        Seq::<char>::empty()
    } else if ls.len() == 1 {
        ser_string(ls[0])
    } else {
        ser_string(ls[0]) + seq![','] + ser_string_items(ls.drop_first())
    }
}

/// A JSON array of strings.
pub open spec fn ser_string_list(ls: Seq<Seq<char>>) -> Seq<char> {
    seq!['['] + ser_string_items(ls) + seq![']']
}

/// A variable as a JSON object.
pub open spec fn ser_var(v: EnvVariableV) -> Seq<char> {
    ("{\"name\":")@ + ser_string(v.name) + (",\"value\":")@ + ser_string(v.value) + ("}")@
}

/// The comma-separated items of a JSON array of variables.
pub open spec fn ser_var_items(vs: Seq<EnvVariableV>) -> Seq<char>
    decreases vs.len(),
{
    if vs.len() == 0 {
        Seq::<char>::empty()
    } else if vs.len() == 1 {
        ser_var(vs[0])
    } else {
        ser_var(vs[0]) + seq![','] + ser_var_items(vs.drop_first())
    }
}

/// A JSON array of variables.
pub open spec fn ser_var_list(vs: Seq<EnvVariableV>) -> Seq<char> {
    seq!['['] + ser_var_items(vs) + seq![']']
}

/// An alias as a JSON object.
pub open spec fn ser_alias(a: EnvAliasV) -> Seq<char> {
    ("{\"name\":")@ + ser_string(a.name) + (",\"commands\":")@ + ser_string_list(a.commands) + (
    "}")@
}

/// The comma-separated items of a JSON array of aliases.
pub open spec fn ser_alias_items(als: Seq<EnvAliasV>) -> Seq<char>
    decreases als.len(),
{
    if als.len() == 0 {
        Seq::<char>::empty()
    } else if als.len() == 1 {
        ser_alias(als[0])
    } else {
        ser_alias(als[0]) + seq![','] + ser_alias_items(als.drop_first())
    }
}

/// A JSON array of aliases.
pub open spec fn ser_alias_list(als: Seq<EnvAliasV>) -> Seq<char> {
    seq!['['] + ser_alias_items(als) + seq![']']
}

/// A directory bundle as a JSON object.
pub open spec fn ser_dir_cache(d: DirCacheV) -> Seq<char> {
    ("{\"variables\":")@ + ser_var_list(d.variables) + (",\"run\":")@ + ser_string_list(d.run) + (
    ",\"aliases\":")@ + ser_alias_list(d.aliases) + (",\"load_from\":")@ + ser_string_list(
        d.load_from,
    ) + ("}")@
}

/// One cache row as a JSON object member.
pub open spec fn ser_entry(e: CacheEntryV) -> Seq<char> {
    ser_string(e.path) + (":")@ + ser_dir_cache(e.dir)
}

/// The comma-separated members of the values object.
pub open spec fn ser_entry_items(es: Seq<CacheEntryV>) -> Seq<char>
    decreases es.len(),
{
    if es.len() == 0 {
        Seq::<char>::empty()
    } else if es.len() == 1 {
        ser_entry(es[0])
    } else {
        ser_entry(es[0]) + seq![','] + ser_entry_items(es.drop_first())
    }
}

/// The values map as a JSON object.
pub open spec fn ser_values(es: Seq<CacheEntryV>) -> Seq<char> {
    seq!['{'] + ser_entry_items(es) + seq!['}']
}

/// The whole cache as a JSON document.
pub open spec fn ser_cache(c: CacheV) -> Seq<char> {
    ("{\"shell\":")@ + ser_string(c.shell) + (",\"hash\":")@ + ser_string(c.hash) + (
    ",\"values\":")@ + ser_values(c.values) + ("}")@
}

/// Writes one string as a JSON literal onto `out`.
fn write_string(out: &mut String, s: &str)
    ensures
        final(out)@ == old(out)@ + ser_string(s@),
    decreases 0int,
{
    let ghost base = out@;
    out.append("\"");
    let n = s.unicode_len();
    let mut i: usize = 0;
    proof {
        reveal_strlit("\"");
        assert(("\"")@ =~= seq!['"']);
        assert(escape_seq(s@.take(0)) =~= Seq::<char>::empty());
        assert(out@ =~= base + seq!['"'] + escape_seq(s@.take(0)));
    }
    while i < n
        invariant
            i <= n,
            n == s@.len(),
            out@ == base + seq!['"'] + escape_seq(s@.take(i as int)),
        decreases n - i,
    {
        let c = s.get_char(i);
        proof {
            assert(s@.take(i as int + 1).drop_first() =~= s@.skip(1).take(i as int));
        }
        let ghost pre = out@;
        if c == '"' {
            out.append("\\\"");
            proof {
                reveal_strlit("\\\"");
                assert(("\\\"")@ =~= seq!['\\', '"']);
            }
        } else if c == '\\' {
            out.append("\\\\");
            proof {
                reveal_strlit("\\\\");
                assert(("\\\\")@ =~= seq!['\\', '\\']);
            }
        } else if c == '\n' {
            out.append("\\n");
            proof {
                reveal_strlit("\\n");
                assert(("\\n")@ =~= seq!['\\', 'n']);
            }
        } else if c == '\r' {
            out.append("\\r");
            proof {
                reveal_strlit("\\r");
                assert(("\\r")@ =~= seq!['\\', 'r']);
            }
        } else if c == '\t' {
            out.append("\\t");
            proof {
                reveal_strlit("\\t");
                assert(("\\t")@ =~= seq!['\\', 't']);
            }
        } else {
            let piece = s.substring_char(i, i + 1);
            out.append(piece);
            proof {
                assert(piece@ =~= seq![s@[i as int]]);
            }
        }
        proof {
            assert(out@ == pre + escape_char(s@[i as int]));
            lemma_escape_take_snoc(s@, i as int);
            assert(out@ =~= base + seq!['"'] + escape_seq(s@.take(i as int + 1)));
        }
        i = i + 1;
    }
    out.append("\"");
    proof {
        assert(s@.take(n as int) =~= s@);
        reveal_strlit("\"");
        assert(("\"")@ =~= seq!['"']);
        assert(out@ =~= base + ser_string(s@));
    }
}

/// Escaping one more character appends its escape.
proof fn lemma_escape_take_snoc(s: Seq<char>, i: int)
    requires
        0 <= i < s.len(),
    ensures
        escape_seq(s.take(i + 1)) == escape_seq(s.take(i)) + escape_char(s[i]),
    decreases i,
{
    if i == 0 {
        assert(s.take(1).drop_first() =~= s.take(0));
        assert(s.take(0) =~= Seq::<char>::empty());
        assert(s.take(1)[0] == s[0]);
        assert(escape_seq(Seq::<char>::empty()) == Seq::<char>::empty());
        assert(escape_seq(s.take(1)) =~= escape_char(s[0]) + Seq::<char>::empty());
        assert(escape_seq(s.take(0)) + escape_char(s[0]) =~= escape_char(s[0])
            + Seq::<char>::empty());
    } else {
        lemma_escape_take_snoc(s.drop_first(), i - 1);
        assert(s.take(i + 1).drop_first() =~= s.drop_first().take(i));
        assert(s.take(i).drop_first() =~= s.drop_first().take(i - 1));
        assert(s.take(i + 1)[0] == s[0]);
        assert(s.take(i)[0] == s[0]);
        assert(s.drop_first()[i - 1] == s[i]);
        assert(escape_seq(s.take(i + 1)) == escape_char(s[0]) + escape_seq(s.drop_first().take(i)));
        assert(escape_seq(s.take(i)) == escape_char(s[0]) + escape_seq(
            s.drop_first().take(i - 1),
        ));
        assert(escape_seq(s.take(i + 1)) =~= escape_seq(s.take(i)) + escape_char(s[i]));
    }
}

/// Writes a JSON array of strings onto `out`.
fn write_string_list(out: &mut String, ls: &Vec<String>)
    ensures
        final(out)@ == old(out)@ + ser_string_list(ls.deep_view()),
{
    let ghost base = out@;
    let ghost ldv = ls.deep_view();
    out.append("[");
    proof {
        reveal_strlit("[");
        assert(("[")@ =~= seq!['[']);
    }
    let mut i: usize = 0;
    while i < ls.len()
        invariant
            i <= ls.len(),
            ls@.len() == ldv.len(),
            ldv == ls.deep_view(),
            out@ == base + seq!['['] + ser_items_prefix(ldv, i as int),
        decreases ls.len() - i,
    {
        proof {
            assert(ldv[i as int] == ls@[i as int].deep_view());
        }
        let ghost pre = out@;
        if i > 0 {
            out.append(",");
            proof {
                reveal_strlit(",");
                assert((",")@ =~= seq![',']);
            }
        }
        write_string(out, ls[i].as_str());
        proof {
            if i > 0 {
                assert(out@ == pre + seq![','] + ser_string(ldv[i as int]));
            } else {
                assert(out@ == pre + ser_string(ldv[i as int]));
            }
            lemma_ser_items_prefix_snoc(ldv, i as int);
            assert(out@ =~= base + seq!['['] + ser_items_prefix(ldv, i as int + 1));
        }
        i = i + 1;
    }
    out.append("]");
    proof {
        reveal_strlit("]");
        assert(("]")@ =~= seq![']']);
        lemma_ser_items_prefix_full(ldv);
        assert(out@ =~= base + ser_string_list(ldv));
    }
}

/// The rendering of the first `i` array items, with their separators.
pub open spec fn ser_items_prefix(ls: Seq<Seq<char>>, i: int) -> Seq<char>
    decreases i,
{
    if i <= 0 {
        Seq::<char>::empty()
    } else if i == 1 {
        ser_string(ls[0])
    } else {
        ser_items_prefix(ls, i - 1) + seq![','] + ser_string(ls[i - 1])
    }
}

/// Rendering one more item appends a separator (after the first) and the
/// item.
proof fn lemma_ser_items_prefix_snoc(ls: Seq<Seq<char>>, i: int)
    requires
        0 <= i,
    ensures
        ser_items_prefix(ls, i + 1) == if i == 0 {
            ser_string(ls[0])
        } else {
            ser_items_prefix(ls, i) + seq![','] + ser_string(ls[i])
        },
{
}

/// The full prefix rendering is the array-items rendering.
proof fn lemma_ser_items_prefix_full(ls: Seq<Seq<char>>)
    ensures
        ser_items_prefix(ls, ls.len() as int) == ser_string_items(ls),
    decreases ls.len(),
{
    if ls.len() > 1 {
        lemma_ser_items_prefix_full(ls.drop_first());
        lemma_ser_items_prefix_shift(ls, ls.len() as int);
        assert(ser_items_prefix(ls, ls.len() as int) =~= ser_string(ls[0]) + seq![',']
            + ser_items_prefix(ls.drop_first(), ls.len() - 1));
        assert(ser_string_items(ls) == ser_string(ls[0]) + seq![','] + ser_string_items(
            ls.drop_first(),
        ));
    }
}

/// A prefix rendering beyond the first item splits at the front.
proof fn lemma_ser_items_prefix_shift(ls: Seq<Seq<char>>, i: int)
    requires
        2 <= i <= ls.len(),
    ensures
        ser_items_prefix(ls, i) == ser_string(ls[0]) + seq![','] + ser_items_prefix(
            ls.drop_first(),
            i - 1,
        ),
    decreases i,
{
    if i == 2 {
        assert(ls.drop_first()[0] == ls[1]);
        assert(ser_items_prefix(ls.drop_first(), 1) == ser_string(ls[1]));
        assert(ser_items_prefix(ls, 1) == ser_string(ls[0]));
        assert(ser_items_prefix(ls, 2) =~= ser_string(ls[0]) + seq![','] + ser_string(ls[1]));
    } else {
        lemma_ser_items_prefix_shift(ls, i - 1);
        assert(ls.drop_first()[i - 2] == ls[i - 1]);
        assert(ser_items_prefix(ls, i) =~= ser_string(ls[0]) + seq![','] + (ser_items_prefix(
            ls.drop_first(),
            i - 2,
        ) + seq![','] + ser_string(ls.drop_first()[i - 2])));
    }
}

/// Writes one variable as a JSON object onto `out`.
fn write_var(out: &mut String, v: &EnvVariable)
    ensures
        final(out)@ == old(out)@ + ser_var(v.deep_view()),
{
    out.append("{\"name\":");
    write_string(out, v.name.as_str());
    out.append(",\"value\":");
    write_string(out, v.value.as_str());
    out.append("}");
    proof {
        assert(out@ =~= old(out)@ + ser_var(v.deep_view()));
    }
}

/// Writes the comma-separated items of a variable array onto `out`.
fn write_var_items(out: &mut String, vs: &Vec<EnvVariable>, i: usize)
    requires
        i < vs@.len(),
    ensures
        final(out)@ == old(out)@ + ser_var_items(vs.deep_view().skip(i as int)),
    decreases vs@.len() - i,
{
    let ghost dv = vs.deep_view();
    proof {
        assert(dv.skip(i as int)[0] == dv[i as int]);
        assert(dv[i as int] == vs@[i as int].deep_view());
        assert(dv.skip(i as int).drop_first() =~= dv.skip(i as int + 1));
    }
    let n = vs.len();
    write_var(out, &vs[i]);
    if i + 1 < n {
        out.append(",");
        proof {
            reveal_strlit(",");
            assert((",")@ =~= seq![',']);
        }
        write_var_items(out, vs, i + 1);
        proof {
            assert(out@ =~= old(out)@ + ser_var_items(dv.skip(i as int)));
        }
    } else {
        proof {
            assert(dv.skip(i as int).len() == 1);
            assert(out@ =~= old(out)@ + ser_var_items(dv.skip(i as int)));
        }
    }
}

/// Writes a JSON array of variables onto `out`.
fn write_var_list(out: &mut String, vs: &Vec<EnvVariable>)
    ensures
        final(out)@ == old(out)@ + ser_var_list(vs.deep_view()),
{
    let ghost dv = vs.deep_view();
    out.append("[");
    proof {
        reveal_strlit("[");
        assert(("[")@ =~= seq!['[']);
    }
    if vs.len() > 0 {
        write_var_items(out, vs, 0);
        proof {
            assert(dv.skip(0) =~= dv);
        }
    } else {
        proof {
            assert(dv.len() == 0);
            assert(ser_var_items(dv) == Seq::<char>::empty());
        }
    }
    out.append("]");
    proof {
        reveal_strlit("]");
        assert(("]")@ =~= seq![']']);
        assert(out@ =~= old(out)@ + ser_var_list(dv));
    }
}

/// Writes one alias as a JSON object onto `out`.
fn write_alias(out: &mut String, a: &EnvAlias)
    ensures
        final(out)@ == old(out)@ + ser_alias(a.deep_view()),
{
    out.append("{\"name\":");
    write_string(out, a.name.as_str());
    out.append(",\"commands\":");
    write_string_list(out, &a.commands);
    out.append("}");
    proof {
        assert(out@ =~= old(out)@ + ser_alias(a.deep_view()));
    }
}

/// Writes the comma-separated items of an alias array onto `out`.
fn write_alias_items(out: &mut String, als: &Vec<EnvAlias>, i: usize)
    requires
        i < als@.len(),
    ensures
        final(out)@ == old(out)@ + ser_alias_items(als.deep_view().skip(i as int)),
    decreases als@.len() - i,
{
    let ghost dv = als.deep_view();
    proof {
        assert(dv.skip(i as int)[0] == dv[i as int]);
        assert(dv[i as int] == als@[i as int].deep_view());
        assert(dv.skip(i as int).drop_first() =~= dv.skip(i as int + 1));
    }
    let n = als.len();
    write_alias(out, &als[i]);
    if i + 1 < n {
        out.append(",");
        proof {
            reveal_strlit(",");
            assert((",")@ =~= seq![',']);
        }
        write_alias_items(out, als, i + 1);
        proof {
            assert(out@ =~= old(out)@ + ser_alias_items(dv.skip(i as int)));
        }
    } else {
        proof {
            assert(dv.skip(i as int).len() == 1);
            assert(out@ =~= old(out)@ + ser_alias_items(dv.skip(i as int)));
        }
    }
}

/// Writes a JSON array of aliases onto `out`.
fn write_alias_list(out: &mut String, als: &Vec<EnvAlias>)
    ensures
        final(out)@ == old(out)@ + ser_alias_list(als.deep_view()),
{
    let ghost dv = als.deep_view();
    out.append("[");
    proof {
        reveal_strlit("[");
        assert(("[")@ =~= seq!['[']);
    }
    if als.len() > 0 {
        write_alias_items(out, als, 0);
        proof {
            assert(dv.skip(0) =~= dv);
        }
    } else {
        proof {
            assert(dv.len() == 0);
            assert(ser_alias_items(dv) == Seq::<char>::empty());
        }
    }
    out.append("]");
    proof {
        reveal_strlit("]");
        assert(("]")@ =~= seq![']']);
        assert(out@ =~= old(out)@ + ser_alias_list(dv));
    }
}

/// Writes one directory bundle as a JSON object onto `out`.
fn write_dir_cache(out: &mut String, d: &DirCache)
    ensures
        final(out)@ == old(out)@ + ser_dir_cache(d.deep_view()),
{
    out.append("{\"variables\":");
    write_var_list(out, &d.variables);
    out.append(",\"run\":");
    write_string_list(out, &d.run);
    out.append(",\"aliases\":");
    write_alias_list(out, &d.aliases);
    out.append(",\"load_from\":");
    write_string_list(out, &d.load_from);
    out.append("}");
    proof {
        assert(out@ =~= old(out)@ + ser_dir_cache(d.deep_view()));
    }
}

/// Writes one cache row as a JSON object member onto `out`.
fn write_entry(out: &mut String, e: &CacheEntry)
    ensures
        final(out)@ == old(out)@ + ser_entry(e.deep_view()),
{
    write_string(out, e.path.as_str());
    out.append(":");
    write_dir_cache(out, &e.dir);
    proof {
        assert(out@ =~= old(out)@ + ser_entry(e.deep_view()));
    }
}

/// Writes the comma-separated members of the values object onto `out`.
fn write_entry_items(out: &mut String, es: &Vec<CacheEntry>, i: usize)
    requires
        i < es@.len(),
    ensures
        final(out)@ == old(out)@ + ser_entry_items(es.deep_view().skip(i as int)),
    decreases es@.len() - i,
{
    let ghost dv = es.deep_view();
    proof {
        assert(dv.skip(i as int)[0] == dv[i as int]);
        assert(dv[i as int] == es@[i as int].deep_view());
        assert(dv.skip(i as int).drop_first() =~= dv.skip(i as int + 1));
    }
    let n = es.len();
    write_entry(out, &es[i]);
    if i + 1 < n {
        out.append(",");
        proof {
            reveal_strlit(",");
            assert((",")@ =~= seq![',']);
        }
        write_entry_items(out, es, i + 1);
        proof {
            assert(out@ =~= old(out)@ + ser_entry_items(dv.skip(i as int)));
        }
    } else {
        proof {
            assert(dv.skip(i as int).len() == 1);
            assert(out@ =~= old(out)@ + ser_entry_items(dv.skip(i as int)));
        }
    }
}

/// Serializes the cache to its JSON document.
pub fn serialize_cache(c: &Cache) -> (r: String)
    ensures
        r@ == ser_cache(c.deep_view()),
{
    let mut out = String::new();
    out.append("{\"shell\":");
    write_string(&mut out, c.shell.as_str());
    out.append(",\"hash\":");
    write_string(&mut out, c.hash.as_str());
    out.append(",\"values\":");
    let ghost pre_vals = out@;
    out.append("{");
    proof {
        reveal_strlit("{");
        assert(("{")@ =~= seq!['{']);
    }
    if c.values.len() > 0 {
        write_entry_items(&mut out, &c.values, 0);
        proof {
            assert(c.values.deep_view().skip(0) =~= c.values.deep_view());
            assert(out@ =~= pre_vals + seq!['{'] + ser_entry_items(c.values.deep_view()));
        }
    } else {
        proof {
            assert(c.values.deep_view().len() == 0);
            assert(ser_entry_items(c.values.deep_view()) == Seq::<char>::empty());
            assert(out@ =~= pre_vals + seq!['{'] + ser_entry_items(c.values.deep_view()));
        }
    }
    let ghost items_done = out@;
    out.append("}");
    proof {
        reveal_strlit("}");
        assert(("}")@ =~= seq!['}']);
        assert(out@ == items_done + ("}")@);
        assert(items_done == pre_vals + seq!['{'] + ser_entry_items(c.values.deep_view()));
        assert((pre_vals + seq!['{'] + ser_entry_items(c.values.deep_view())) + seq!['}']
            =~= pre_vals + ser_values(c.values.deep_view()));
        assert(pre_vals =~= ("{\"shell\":")@ + ser_string(c.shell@) + (",\"hash\":")@
            + ser_string(c.hash@) + (",\"values\":")@);
        assert(c.deep_view().shell == c.shell@);
        assert(c.deep_view().hash == c.hash@);
        assert(c.deep_view().values == c.values.deep_view());
    }
    out.append("}");
    proof {
        assert(out@ =~= ser_cache(c.deep_view()));
    }
    out
}

/// The character an escape code stands for, if the code is valid.
pub open spec fn unescape_code(c: char) -> Option<char> {
    if c == '"' {
        Some('"')
    } else if c == '\\' {
        Some('\\')
    } else if c == 'n' {
        Some('\n')
    } else if c == 'r' {
        Some('\r')
    } else if c == 't' {
        Some('\t')
    } else {
        None
    }
}

/// Parses the body of a JSON string up to and including the closing quote,
/// returning the unescaped content and the remaining input.
pub open spec fn parse_body(u: Seq<char>) -> Option<(Seq<char>, Seq<char>)>
    decreases u.len(),
{
    if u.len() == 0 {
        None
    } else if u[0] == '"' {
        Some((Seq::<char>::empty(), u.skip(1)))
    } else if u[0] == '\\' {
        if u.len() < 2 {
            None
        } else {
            match unescape_code(u[1]) {
                None => None,
                Some(c) => match parse_body(u.skip(2)) {
                    None => None,
                    Some(p) => Some((seq![c] + p.0, p.1)),
                },
            }
        }
    } else {
        match parse_body(u.skip(1)) {
            None => None,
            Some(p) => Some((seq![u[0]] + p.0, p.1)),
        }
    }
}

/// Parses a JSON string literal: an opening quote, then its body.
pub open spec fn parse_string(u: Seq<char>) -> Option<(Seq<char>, Seq<char>)> {
    if u.len() > 0 && u[0] == '"' {
        parse_body(u.skip(1))
    } else {
        None
    }
}

/// Consumes an expected literal token.
pub open spec fn spec_eat(u: Seq<char>, tok: Seq<char>) -> Option<Seq<char>> {
    if tok.len() <= u.len() && u.take(tok.len() as int) == tok {
        Some(u.skip(tok.len() as int))
    } else {
        None
    }
}

/// Parses the items of a nonempty string array, up to and including the
/// closing bracket.
pub open spec fn parse_string_items(u: Seq<char>) -> Option<(Seq<Seq<char>>, Seq<char>)>
    decreases u.len(),
{
    match parse_string(u) {
        None => None,
        Some(p) => {
            if p.1.len() > 0 && p.1[0] == ']' {
                Some((seq![p.0], p.1.skip(1)))
            } else if p.1.len() > 0 && p.1[0] == ',' && p.1.len() < u.len() {
                match parse_string_items(p.1.skip(1)) {
                    None => None,
                    Some(q) => Some((seq![p.0] + q.0, q.1)),
                }
            } else {
                None
            }
        },
    }
}

/// Parses a JSON array of strings.
pub open spec fn parse_string_list(u: Seq<char>) -> Option<(Seq<Seq<char>>, Seq<char>)> {
    if u.len() >= 2 && u[0] == '[' && u[1] == ']' {
        Some((Seq::<Seq<char>>::empty(), u.skip(2)))
    } else if u.len() > 0 && u[0] == '[' {
        parse_string_items(u.skip(1))
    } else {
        None
    }
}

/// Parses one variable object.
pub open spec fn parse_var(u: Seq<char>) -> Option<(EnvVariableV, Seq<char>)> {
    match spec_eat(u, ("{\"name\":")@) {
        None => None,
        Some(r1) => match parse_string(r1) {
            None => None,
            Some(p1) => match spec_eat(p1.1, (",\"value\":")@) {
                None => None,
                Some(r2) => match parse_string(r2) {
                    None => None,
                    Some(p2) => match spec_eat(p2.1, ("}")@) {
                        None => None,
                        Some(r3) => Some((EnvVariableV { name: p1.0, value: p2.0 }, r3)),
                    },
                },
            },
        },
    }
}

/// Parses the items of a nonempty variable array, up to and including the
/// closing bracket.
pub open spec fn parse_var_items(u: Seq<char>) -> Option<(Seq<EnvVariableV>, Seq<char>)>
    decreases u.len(),
{
    match parse_var(u) {
        None => None,
        Some(p) => {
            if p.1.len() > 0 && p.1[0] == ']' {
                Some((seq![p.0], p.1.skip(1)))
            } else if p.1.len() > 0 && p.1[0] == ',' && p.1.len() < u.len() {
                match parse_var_items(p.1.skip(1)) {
                    None => None,
                    Some(q) => Some((seq![p.0] + q.0, q.1)),
                }
            } else {
                None
            }
        },
    }
}

/// Parses a JSON array of variables.
pub open spec fn parse_var_list(u: Seq<char>) -> Option<(Seq<EnvVariableV>, Seq<char>)> {
    if u.len() >= 2 && u[0] == '[' && u[1] == ']' {
        Some((Seq::<EnvVariableV>::empty(), u.skip(2)))
    } else if u.len() > 0 && u[0] == '[' {
        parse_var_items(u.skip(1))
    } else {
        None
    }
}

/// Parses one alias object.
pub open spec fn parse_alias(u: Seq<char>) -> Option<(EnvAliasV, Seq<char>)> {
    match spec_eat(u, ("{\"name\":")@) {
        None => None,
        Some(r1) => match parse_string(r1) {
            None => None,
            Some(p1) => match spec_eat(p1.1, (",\"commands\":")@) {
                None => None,
                Some(r2) => match parse_string_list(r2) {
                    None => None,
                    Some(p2) => match spec_eat(p2.1, ("}")@) {
                        None => None,
                        Some(r3) => Some((EnvAliasV { name: p1.0, commands: p2.0 }, r3)),
                    },
                },
            },
        },
    }
}

/// Parses the items of a nonempty alias array, up to and including the
/// closing bracket.
pub open spec fn parse_alias_items(u: Seq<char>) -> Option<(Seq<EnvAliasV>, Seq<char>)>
    decreases u.len(),
{
    match parse_alias(u) {
        None => None,
        Some(p) => {
            if p.1.len() > 0 && p.1[0] == ']' {
                Some((seq![p.0], p.1.skip(1)))
            } else if p.1.len() > 0 && p.1[0] == ',' && p.1.len() < u.len() {
                match parse_alias_items(p.1.skip(1)) {
                    None => None,
                    Some(q) => Some((seq![p.0] + q.0, q.1)),
                }
            } else {
                None
            }
        },
    }
}

/// Parses a JSON array of aliases.
pub open spec fn parse_alias_list(u: Seq<char>) -> Option<(Seq<EnvAliasV>, Seq<char>)> {
    if u.len() >= 2 && u[0] == '[' && u[1] == ']' {
        Some((Seq::<EnvAliasV>::empty(), u.skip(2)))
    } else if u.len() > 0 && u[0] == '[' {
        parse_alias_items(u.skip(1))
    } else {
        None
    }
}

/// Parses one directory bundle object.
pub open spec fn parse_dir(u: Seq<char>) -> Option<(DirCacheV, Seq<char>)> {
    match spec_eat(u, ("{\"variables\":")@) {
        None => None,
        Some(r1) => match parse_var_list(r1) {
            None => None,
            Some(p1) => match spec_eat(p1.1, (",\"run\":")@) {
                None => None,
                Some(r2) => match parse_string_list(r2) {
                    None => None,
                    Some(p2) => match spec_eat(p2.1, (",\"aliases\":")@) {
                        None => None,
                        Some(r3) => match parse_alias_list(r3) {
                            None => None,
                            Some(p3) => match spec_eat(p3.1, (",\"load_from\":")@) {
                                None => None,
                                Some(r4) => match parse_string_list(r4) {
                                    None => None,
                                    Some(p4) => match spec_eat(p4.1, ("}")@) {
                                        None => None,
                                        Some(r5) => Some(
                                            (
                                                DirCacheV {
                                                    variables: p1.0,
                                                    run: p2.0,
                                                    aliases: p3.0,
                                                    load_from: p4.0,
                                                },
                                                r5,
                                            ),
                                        ),
                                    },
                                },
                            },
                        },
                    },
                },
            },
        },
    }
}

/// Parses one cache row: a string key, a colon, a bundle.
pub open spec fn parse_entry(u: Seq<char>) -> Option<(CacheEntryV, Seq<char>)> {
    match parse_string(u) {
        None => None,
        Some(p) => {
            if p.1.len() > 0 && p.1[0] == ':' {
                match parse_dir(p.1.skip(1)) {
                    None => None,
                    Some(q) => Some((CacheEntryV { path: p.0, dir: q.0 }, q.1)),
                }
            } else {
                None
            }
        },
    }
}

/// Parses the members of a nonempty values object, up to and including the
/// closing brace.
pub open spec fn parse_entry_items(u: Seq<char>) -> Option<(Seq<CacheEntryV>, Seq<char>)>
    decreases u.len(),
{
    match parse_entry(u) {
        None => None,
        Some(p) => {
            if p.1.len() > 0 && p.1[0] == '}' {
                Some((seq![p.0], p.1.skip(1)))
            } else if p.1.len() > 0 && p.1[0] == ',' && p.1.len() < u.len() {
                match parse_entry_items(p.1.skip(1)) {
                    None => None,
                    Some(q) => Some((seq![p.0] + q.0, q.1)),
                }
            } else {
                None
            }
        },
    }
}

/// Parses the values object.
pub open spec fn parse_values(u: Seq<char>) -> Option<(Seq<CacheEntryV>, Seq<char>)> {
    if u.len() >= 2 && u[0] == '{' && u[1] == '}' {
        Some((Seq::<CacheEntryV>::empty(), u.skip(2)))
    } else if u.len() > 0 && u[0] == '{' {
        parse_entry_items(u.skip(1))
    } else {
        None
    }
}

/// Parses the cache document, returning the cache and the remaining input.
pub open spec fn parse_cache_doc(u: Seq<char>) -> Option<(CacheV, Seq<char>)> {
    match spec_eat(u, ("{\"shell\":")@) {
        None => None,
        Some(r1) => match parse_string(r1) {
            None => None,
            Some(p1) => match spec_eat(p1.1, (",\"hash\":")@) {
                None => None,
                Some(r2) => match parse_string(r2) {
                    None => None,
                    Some(p2) => match spec_eat(p2.1, (",\"values\":")@) {
                        None => None,
                        Some(r3) => match parse_values(r3) {
                            None => None,
                            Some(p3) => match spec_eat(p3.1, ("}")@) {
                                None => None,
                                Some(r4) => Some(
                                    (CacheV { shell: p1.0, hash: p2.0, values: p3.0 }, r4),
                                ),
                            },
                        },
                    },
                },
            },
        },
    }
}

/// What parsing a whole cache file yields: the document, with nothing left
/// over.
pub open spec fn spec_parse_cache(s: Seq<char>) -> Option<CacheV> {
    match parse_cache_doc(s) {
        None => None,
        Some(p) => if p.1.len() == 0 {
            Some(p.0)
        } else {
            None
        },
    }
}

/// Consumes an expected literal token from the input.
fn eat_tok<'a>(s: &'a str, tok: &str) -> (r: Option<&'a str>)
    ensures
        match spec_eat(s@, tok@) {
            Some(rest) => r matches Some(ss) && ss@ == rest,
            None => r is None,
        },
{
    let nt = tok.unicode_len();
    let n = s.unicode_len();
    if nt > n {
        return None;
    }
    let mut i: usize = 0;
    while i < nt
        invariant
            i <= nt,
            nt <= n,
            n == s@.len(),
            nt == tok@.len(),
            forall|j: int| 0 <= j < i ==> s@[j] == tok@[j],
        decreases nt - i,
    {
        if s.get_char(i) != tok.get_char(i) {
            proof {
                assert(s@.take(nt as int)[i as int] != tok@[i as int]);
                assert(s@.take(nt as int) != tok@);
            }
            return None;
        }
        i = i + 1;
    }
    proof {
        assert(s@.take(nt as int) =~= tok@);
    }
    let rest = s.substring_char(nt, n);
    proof {
        assert(rest@ =~= s@.skip(nt as int));
    }
    Some(rest)
}

/// Parses a JSON string body up to and including the closing quote.
fn take_body(s: &str) -> (r: Option<(String, &str)>)
    ensures
        match parse_body(s@) {
            Some(p) => r matches Some(q) && q.0@ == p.0 && q.1@ == p.1,
            None => r is None,
        },
    decreases s@.len(),
{
    let n = s.unicode_len();
    if n == 0 {
        return None;
    }
    let c = s.get_char(0);
    if c == '"' {
        let rest = s.substring_char(1, n);
        proof {
            assert(rest@ =~= s@.skip(1));
        }
        Some((String::new(), rest))
    } else if c == '\\' {
        if n < 2 {
            return None;
        }
        let c2 = s.get_char(1);
        let dec: &str = if c2 == '"' {
            "\""
        } else if c2 == '\\' {
            "\\"
        } else if c2 == 'n' {
            "\n"
        } else if c2 == 'r' {
            "\r"
        } else if c2 == 't' {
            "\t"
        } else {
            return None;
        };
        proof {
            reveal_strlit("\"");
            reveal_strlit("\\");
            reveal_strlit("\n");
            reveal_strlit("\r");
            reveal_strlit("\t");
            assert(("\"")@ =~= seq!['"']);
            assert(("\\")@ =~= seq!['\\']);
            assert(("\n")@ =~= seq!['\n']);
            assert(("\r")@ =~= seq!['\r']);
            assert(("\t")@ =~= seq!['\t']);
            assert(unescape_code(s@[1]) matches Some(d) && dec@ == seq![d]);
        }
        let rest0 = s.substring_char(2, n);
        proof {
            assert(rest0@ =~= s@.skip(2));
        }
        match take_body(rest0) {
            None => None,
            Some(q) => {
                let mut out = dec.to_owned();
                out.append(q.0.as_str());
                proof {
                    assert(parse_body(s@) matches Some(p) && out@ == p.0 && q.1@ == p.1);
                }
                Some((out, q.1))
            },
        }
    } else {
        let rest0 = s.substring_char(1, n);
        let first = s.substring_char(0, 1);
        proof {
            assert(rest0@ =~= s@.skip(1));
            assert(first@ =~= seq![s@[0]]);
        }
        match take_body(rest0) {
            None => None,
            Some(q) => {
                let mut out = first.to_owned();
                out.append(q.0.as_str());
                proof {
                    assert(parse_body(s@) matches Some(p) && out@ == p.0 && q.1@ == p.1);
                }
                Some((out, q.1))
            },
        }
    }
}

/// Parses a JSON string literal.
fn take_string(s: &str) -> (r: Option<(String, &str)>)
    ensures
        match parse_string(s@) {
            Some(p) => r matches Some(q) && q.0@ == p.0 && q.1@ == p.1,
            None => r is None,
        },
{
    let n = s.unicode_len();
    if n == 0 {
        return None;
    }
    if s.get_char(0) != '"' {
        return None;
    }
    let rest = s.substring_char(1, n);
    proof {
        assert(rest@ =~= s@.skip(1));
    }
    take_body(rest)
}

/// Parses the items of a nonempty string array.
fn take_string_items(s: &str) -> (r: Option<(Vec<String>, &str)>)
    ensures
        match parse_string_items(s@) {
            Some(p) => r matches Some(q) && q.0.deep_view() == p.0 && q.1@ == p.1,
            None => r is None,
        },
    decreases s@.len(),
{
    let n = s.unicode_len();
    match take_string(s) {
        None => None,
        Some(pair) => {
            let v = pair.0;
            let rest = pair.1;
            let rn = rest.unicode_len();
            if rn > 0 && rest.get_char(0) == ']' {
                let mut out: Vec<String> = Vec::new();
                out.push(v);
                let rem = rest.substring_char(1, rn);
                proof {
                    assert(rem@ =~= rest@.skip(1));
                    assert(parse_string_items(s@) matches Some(p) && out.deep_view() =~= p.0
                        && rem@ == p.1);
                }
                Some((out, rem))
            } else if rn > 0 && rest.get_char(0) == ',' && rn < n {
                let nxt = rest.substring_char(1, rn);
                proof {
                    assert(nxt@ =~= rest@.skip(1));
                }
                match take_string_items(nxt) {
                    None => None,
                    Some(tp) => {
                        let mut out = tp.0;
                        let ghost prev = out@;
                        let ghost prev_dv = out.deep_view();
                        out.insert(0, v);
                        proof {
                            let p0 = parse_string_items(s@).unwrap().0;
                            assert forall|j: int| 0 <= j < out@.len() implies out.deep_view()[j]
                                == p0[j] by {
                                assert(out@ == prev.insert(0, v));
                                assert(out.deep_view()[j] == out@[j].deep_view());
                                if j == 0 {
                                    assert(out@[0] == v);
                                } else {
                                    assert(out@[j] == prev[j - 1]);
                                    assert(prev[j - 1].deep_view() == prev_dv[j - 1]);
                                }
                            }
                            assert(out.deep_view() =~= p0);
                        }
                        Some((out, tp.1))
                    },
                }
            } else {
                None
            }
        },
    }
}

/// Parses a JSON array of strings.
fn take_string_list(s: &str) -> (r: Option<(Vec<String>, &str)>)
    ensures
        match parse_string_list(s@) {
            Some(p) => r matches Some(q) && q.0.deep_view() == p.0 && q.1@ == p.1,
            None => r is None,
        },
{
    let n = s.unicode_len();
    if n >= 2 && s.get_char(0) == '[' && s.get_char(1) == ']' {
        let out: Vec<String> = Vec::new();
        let rem = s.substring_char(2, n);
        proof {
            assert(rem@ =~= s@.skip(2));
            assert(out.deep_view() =~= Seq::<Seq<char>>::empty());
        }
        Some((out, rem))
    } else if n > 0 && s.get_char(0) == '[' {
        let rest = s.substring_char(1, n);
        proof {
            assert(rest@ =~= s@.skip(1));
        }
        take_string_items(rest)
    } else {
        None
    }
}

/// Parses one variable object.
fn take_var(s: &str) -> (r: Option<(EnvVariable, &str)>)
    ensures
        match parse_var(s@) {
            Some(p) => r matches Some(q) && q.0.deep_view() == p.0 && q.1@ == p.1,
            None => r is None,
        },
{
    let r1 = match eat_tok(s, "{\"name\":") {
        Some(x) => x,
        None => {
            return None;
        },
    };
    let p1 = match take_string(r1) {
        Some(x) => x,
        None => {
            return None;
        },
    };
    let r2 = match eat_tok(p1.1, ",\"value\":") {
        Some(x) => x,
        None => {
            return None;
        },
    };
    let p2 = match take_string(r2) {
        Some(x) => x,
        None => {
            return None;
        },
    };
    let r3 = match eat_tok(p2.1, "}") {
        Some(x) => x,
        None => {
            return None;
        },
    };
    let v = EnvVariable { name: p1.0, value: p2.0 };
    proof {
        assert(parse_var(s@) matches Some(p) && v.deep_view() == p.0 && r3@ == p.1);
    }
    Some((v, r3))
}

/// Parses the items of a nonempty variable array.
fn take_var_items(s: &str) -> (r: Option<(Vec<EnvVariable>, &str)>)
    ensures
        match parse_var_items(s@) {
            Some(p) => r matches Some(q) && q.0.deep_view() == p.0 && q.1@ == p.1,
            None => r is None,
        },
    decreases s@.len(),
{
    let n = s.unicode_len();
    match take_var(s) {
        None => None,
        Some(pair) => {
            let v = pair.0;
            let rest = pair.1;
            let rn = rest.unicode_len();
            if rn > 0 && rest.get_char(0) == ']' {
                let mut out: Vec<EnvVariable> = Vec::new();
                out.push(v);
                let rem = rest.substring_char(1, rn);
                proof {
                    assert(rem@ =~= rest@.skip(1));
                    assert(parse_var_items(s@) matches Some(p) && out.deep_view() =~= p.0 && rem@
                        == p.1);
                }
                Some((out, rem))
            } else if rn > 0 && rest.get_char(0) == ',' && rn < n {
                let nxt = rest.substring_char(1, rn);
                proof {
                    assert(nxt@ =~= rest@.skip(1));
                }
                match take_var_items(nxt) {
                    None => None,
                    Some(tp) => {
                        let mut out = tp.0;
                        let ghost prev = out@;
                        let ghost prev_dv = out.deep_view();
                        out.insert(0, v);
                        proof {
                            let p0 = parse_var_items(s@).unwrap().0;
                            assert forall|j: int| 0 <= j < out@.len() implies out.deep_view()[j]
                                == p0[j] by {
                                assert(out@ == prev.insert(0, v));
                                assert(out.deep_view()[j] == out@[j].deep_view());
                                if j == 0 {
                                    assert(out@[0] == v);
                                } else {
                                    assert(out@[j] == prev[j - 1]);
                                    assert(prev[j - 1].deep_view() == prev_dv[j - 1]);
                                }
                            }
                            assert(out.deep_view() =~= p0);
                        }
                        Some((out, tp.1))
                    },
                }
            } else {
                None
            }
        },
    }
}

/// Parses a JSON array of variables.
fn take_var_list(s: &str) -> (r: Option<(Vec<EnvVariable>, &str)>)
    ensures
        match parse_var_list(s@) {
            Some(p) => r matches Some(q) && q.0.deep_view() == p.0 && q.1@ == p.1,
            None => r is None,
        },
{
    let n = s.unicode_len();
    if n >= 2 && s.get_char(0) == '[' && s.get_char(1) == ']' {
        let out: Vec<EnvVariable> = Vec::new();
        let rem = s.substring_char(2, n);
        proof {
            assert(rem@ =~= s@.skip(2));
            assert(out.deep_view() =~= Seq::<EnvVariableV>::empty());
        }
        Some((out, rem))
    } else if n > 0 && s.get_char(0) == '[' {
        let rest = s.substring_char(1, n);
        proof {
            assert(rest@ =~= s@.skip(1));
        }
        take_var_items(rest)
    } else {
        None
    }
}

/// Parses one alias object.
fn take_alias(s: &str) -> (r: Option<(EnvAlias, &str)>)
    ensures
        match parse_alias(s@) {
            Some(p) => r matches Some(q) && q.0.deep_view() == p.0 && q.1@ == p.1,
            None => r is None,
        },
{
    let r1 = match eat_tok(s, "{\"name\":") {
        Some(x) => x,
        None => {
            return None;
        },
    };
    let p1 = match take_string(r1) {
        Some(x) => x,
        None => {
            return None;
        },
    };
    let r2 = match eat_tok(p1.1, ",\"commands\":") {
        Some(x) => x,
        None => {
            return None;
        },
    };
    let p2 = match take_string_list(r2) {
        Some(x) => x,
        None => {
            return None;
        },
    };
    let r3 = match eat_tok(p2.1, "}") {
        Some(x) => x,
        None => {
            return None;
        },
    };
    let a = EnvAlias { name: p1.0, commands: p2.0 };
    proof {
        assert(parse_alias(s@) matches Some(p) && a.deep_view() == p.0 && r3@ == p.1);
    }
    Some((a, r3))
}

/// Parses the items of a nonempty alias array.
fn take_alias_items(s: &str) -> (r: Option<(Vec<EnvAlias>, &str)>)
    ensures
        match parse_alias_items(s@) {
            Some(p) => r matches Some(q) && q.0.deep_view() == p.0 && q.1@ == p.1,
            None => r is None,
        },
    decreases s@.len(),
{
    let n = s.unicode_len();
    match take_alias(s) {
        None => None,
        Some(pair) => {
            let v = pair.0;
            let rest = pair.1;
            let rn = rest.unicode_len();
            if rn > 0 && rest.get_char(0) == ']' {
                let mut out: Vec<EnvAlias> = Vec::new();
                out.push(v);
                let rem = rest.substring_char(1, rn);
                proof {
                    assert(rem@ =~= rest@.skip(1));
                    assert(parse_alias_items(s@) matches Some(p) && out.deep_view() =~= p.0
                        && rem@ == p.1);
                }
                Some((out, rem))
            } else if rn > 0 && rest.get_char(0) == ',' && rn < n {
                let nxt = rest.substring_char(1, rn);
                proof {
                    assert(nxt@ =~= rest@.skip(1));
                }
                match take_alias_items(nxt) {
                    None => None,
                    Some(tp) => {
                        let mut out = tp.0;
                        let ghost prev = out@;
                        let ghost prev_dv = out.deep_view();
                        out.insert(0, v);
                        proof {
                            let p0 = parse_alias_items(s@).unwrap().0;
                            assert forall|j: int| 0 <= j < out@.len() implies out.deep_view()[j]
                                == p0[j] by {
                                assert(out@ == prev.insert(0, v));
                                assert(out.deep_view()[j] == out@[j].deep_view());
                                if j == 0 {
                                    assert(out@[0] == v);
                                } else {
                                    assert(out@[j] == prev[j - 1]);
                                    assert(prev[j - 1].deep_view() == prev_dv[j - 1]);
                                }
                            }
                            assert(out.deep_view() =~= p0);
                        }
                        Some((out, tp.1))
                    },
                }
            } else {
                None
            }
        },
    }
}

/// Parses a JSON array of aliases.
fn take_alias_list(s: &str) -> (r: Option<(Vec<EnvAlias>, &str)>)
    ensures
        match parse_alias_list(s@) {
            Some(p) => r matches Some(q) && q.0.deep_view() == p.0 && q.1@ == p.1,
            None => r is None,
        },
{
    let n = s.unicode_len();
    if n >= 2 && s.get_char(0) == '[' && s.get_char(1) == ']' {
        let out: Vec<EnvAlias> = Vec::new();
        let rem = s.substring_char(2, n);
        proof {
            assert(rem@ =~= s@.skip(2));
            assert(out.deep_view() =~= Seq::<EnvAliasV>::empty());
        }
        Some((out, rem))
    } else if n > 0 && s.get_char(0) == '[' {
        let rest = s.substring_char(1, n);
        proof {
            assert(rest@ =~= s@.skip(1));
        }
        take_alias_items(rest)
    } else {
        None
    }
}

/// Parses one directory bundle object.
fn take_dir(s: &str) -> (r: Option<(DirCache, &str)>)
    ensures
        match parse_dir(s@) {
            Some(p) => r matches Some(q) && q.0.deep_view() == p.0 && q.1@ == p.1,
            None => r is None,
        },
{
    let r1 = match eat_tok(s, "{\"variables\":") {
        Some(x) => x,
        None => {
            return None;
        },
    };
    let p1 = match take_var_list(r1) {
        Some(x) => x,
        None => {
            return None;
        },
    };
    let r2 = match eat_tok(p1.1, ",\"run\":") {
        Some(x) => x,
        None => {
            return None;
        },
    };
    let p2 = match take_string_list(r2) {
        Some(x) => x,
        None => {
            return None;
        },
    };
    let r3 = match eat_tok(p2.1, ",\"aliases\":") {
        Some(x) => x,
        None => {
            return None;
        },
    };
    let p3 = match take_alias_list(r3) {
        Some(x) => x,
        None => {
            return None;
        },
    };
    let r4 = match eat_tok(p3.1, ",\"load_from\":") {
        Some(x) => x,
        None => {
            return None;
        },
    };
    let p4 = match take_string_list(r4) {
        Some(x) => x,
        None => {
            return None;
        },
    };
    let r5 = match eat_tok(p4.1, "}") {
        Some(x) => x,
        None => {
            return None;
        },
    };
    let d = DirCache { variables: p1.0, run: p2.0, aliases: p3.0, load_from: p4.0 };
    proof {
        assert(parse_dir(s@) matches Some(p) && d.deep_view() == p.0 && r5@ == p.1);
    }
    Some((d, r5))
}

/// Parses one cache row.
fn take_entry(s: &str) -> (r: Option<(CacheEntry, &str)>)
    ensures
        match parse_entry(s@) {
            Some(p) => r matches Some(q) && q.0.deep_view() == p.0 && q.1@ == p.1,
            None => r is None,
        },
{
    let p1 = match take_string(s) {
        Some(x) => x,
        None => {
            return None;
        },
    };
    let rest = p1.1;
    let rn = rest.unicode_len();
    if rn == 0 || rest.get_char(0) != ':' {
        return None;
    }
    let after = rest.substring_char(1, rn);
    proof {
        assert(after@ =~= rest@.skip(1));
    }
    let p2 = match take_dir(after) {
        Some(x) => x,
        None => {
            return None;
        },
    };
    let e = CacheEntry { path: p1.0, dir: p2.0 };
    proof {
        assert(parse_entry(s@) matches Some(p) && e.deep_view() == p.0 && p2.1@ == p.1);
    }
    Some((e, p2.1))
}

/// Parses the members of a nonempty values object.
fn take_entry_items(s: &str) -> (r: Option<(Vec<CacheEntry>, &str)>)
    ensures
        match parse_entry_items(s@) {
            Some(p) => r matches Some(q) && q.0.deep_view() == p.0 && q.1@ == p.1,
            None => r is None,
        },
    decreases s@.len(),
{
    let n = s.unicode_len();
    match take_entry(s) {
        None => None,
        Some(pair) => {
            let v = pair.0;
            let rest = pair.1;
            let rn = rest.unicode_len();
            if rn > 0 && rest.get_char(0) == '}' {
                let mut out: Vec<CacheEntry> = Vec::new();
                out.push(v);
                let rem = rest.substring_char(1, rn);
                proof {
                    assert(rem@ =~= rest@.skip(1));
                    assert(parse_entry_items(s@) matches Some(p) && out.deep_view() =~= p.0
                        && rem@ == p.1);
                }
                Some((out, rem))
            } else if rn > 0 && rest.get_char(0) == ',' && rn < n {
                let nxt = rest.substring_char(1, rn);
                proof {
                    assert(nxt@ =~= rest@.skip(1));
                }
                match take_entry_items(nxt) {
                    None => None,
                    Some(tp) => {
                        let mut out = tp.0;
                        let ghost prev = out@;
                        let ghost prev_dv = out.deep_view();
                        out.insert(0, v);
                        proof {
                            let p0 = parse_entry_items(s@).unwrap().0;
                            assert forall|j: int| 0 <= j < out@.len() implies out.deep_view()[j]
                                == p0[j] by {
                                assert(out@ == prev.insert(0, v));
                                assert(out.deep_view()[j] == out@[j].deep_view());
                                if j == 0 {
                                    assert(out@[0] == v);
                                } else {
                                    assert(out@[j] == prev[j - 1]);
                                    assert(prev[j - 1].deep_view() == prev_dv[j - 1]);
                                }
                            }
                            assert(out.deep_view() =~= p0);
                        }
                        Some((out, tp.1))
                    },
                }
            } else {
                None
            }
        },
    }
}

/// Parses a serialized cache document; any deviation from the exact
/// rendering yields nothing.
pub fn parse_cache(s: &str) -> (r: Option<Cache>)
    ensures
        match spec_parse_cache(s@) {
            Some(cv) => r matches Some(c) && c.deep_view() == cv,
            None => r is None,
        },
{
    let r1 = match eat_tok(s, "{\"shell\":") {
        Some(x) => x,
        None => {
            return None;
        },
    };
    let p1 = match take_string(r1) {
        Some(x) => x,
        None => {
            return None;
        },
    };
    let r2 = match eat_tok(p1.1, ",\"hash\":") {
        Some(x) => x,
        None => {
            return None;
        },
    };
    let p2 = match take_string(r2) {
        Some(x) => x,
        None => {
            return None;
        },
    };
    let r3 = match eat_tok(p2.1, ",\"values\":") {
        Some(x) => x,
        None => {
            return None;
        },
    };
    let vn = r3.unicode_len();
    let values_pair: (Vec<CacheEntry>, &str) = if vn >= 2 && r3.get_char(0) == '{'
        && r3.get_char(1) == '}' {
        let out: Vec<CacheEntry> = Vec::new();
        let rem = r3.substring_char(2, vn);
        proof {
            assert(rem@ =~= r3@.skip(2));
            assert(out.deep_view() =~= Seq::<CacheEntryV>::empty());
        }
        (out, rem)
    } else if vn > 0 && r3.get_char(0) == '{' {
        let rest = r3.substring_char(1, vn);
        proof {
            assert(rest@ =~= r3@.skip(1));
        }
        match take_entry_items(rest) {
            Some(x) => x,
            None => {
                return None;
            },
        }
    } else {
        return None;
    };
    let r4 = match eat_tok(values_pair.1, "}") {
        Some(x) => x,
        None => {
            return None;
        },
    };
    if r4.unicode_len() != 0 {
        return None;
    }
    let c = Cache { shell: p1.0, hash: p2.0, values: values_pair.0 };
    proof {
        assert(spec_parse_cache(s@) matches Some(cv) && c.deep_view() == cv);
    }
    Some(c)
}

/// Consuming a token from itself-plus-rest leaves the rest.
proof fn lemma_rt_eat(tok: Seq<char>, rest: Seq<char>)
    ensures
        spec_eat(tok + rest, tok) == Some(rest),
{
    assert((tok + rest).take(tok.len() as int) =~= tok);
    assert((tok + rest).skip(tok.len() as int) =~= rest);
}

/// Parsing an escaped body inverts escaping.
proof fn lemma_rt_body(x: Seq<char>, t: Seq<char>)
    ensures
        parse_body(escape_seq(x) + seq!['"'] + t) == Some((x, t)),
    decreases x.len(),
{
    let u = escape_seq(x) + seq!['"'] + t;
    if x.len() == 0 {
        assert(escape_seq(x) == Seq::<char>::empty());
        assert(u =~= seq!['"'] + t);
        assert(u[0] == '"');
        assert(u.skip(1) =~= t);
        assert(x =~= Seq::<char>::empty());
        assert(parse_body(u) == Some((x, t)));
    } else {
        lemma_rt_body(x.drop_first(), t);
        let c = x[0];
        let tail_u = escape_seq(x.drop_first()) + seq!['"'] + t;
        assert(escape_seq(x) == escape_char(c) + escape_seq(x.drop_first()));
        if c == '"' || c == '\\' || c == '\n' || c == '\r' || c == '\t' {
            let code = if c == '"' {
                '"'
            } else if c == '\\' {
                '\\'
            } else if c == '\n' {
                'n'
            } else if c == '\r' {
                'r'
            } else {
                't'
            };
            assert(escape_char(c) =~= seq!['\\', code]);
            assert(u =~= seq!['\\', code] + tail_u);
            assert(u[0] == '\\');
            assert(u.len() >= 2);
            assert(u[1] == code);
            assert(unescape_code(code) == Some(c));
            assert(u.skip(2) =~= tail_u);
            assert(parse_body(u) == Some((seq![c] + x.drop_first(), t)));
            assert(seq![c] + x.drop_first() =~= x);
        } else {
            assert(escape_char(c) =~= seq![c]);
            assert(u =~= seq![c] + tail_u);
            assert(u[0] == c);
            assert(u.skip(1) =~= tail_u);
            assert(parse_body(u) == Some((seq![c] + x.drop_first(), t)));
            assert(seq![c] + x.drop_first() =~= x);
        }
    }
}

/// Parsing a serialized string literal returns the string.
proof fn lemma_rt_string(x: Seq<char>, t: Seq<char>)
    ensures
        parse_string(ser_string(x) + t) == Some((x, t)),
        (ser_string(x) + t).len() >= 2 + t.len(),
        (ser_string(x) + t)[0] == '"',
{
    let u = ser_string(x) + t;
    assert(u =~= seq!['"'] + (escape_seq(x) + seq!['"'] + t));
    assert(u[0] == '"');
    assert(u.skip(1) =~= escape_seq(x) + seq!['"'] + t);
    lemma_rt_body(x, t);
}

/// Parsing serialized string-array items returns the strings.
proof fn lemma_rt_string_items(ls: Seq<Seq<char>>, t: Seq<char>)
    requires
        ls.len() >= 1,
    ensures
        parse_string_items(ser_string_items(ls) + seq![']'] + t) == Some((ls, t)),
    decreases ls.len(),
{
    let u = ser_string_items(ls) + seq![']'] + t;
    if ls.len() == 1 {
        assert(ser_string_items(ls) == ser_string(ls[0]));
        let rest = seq![']'] + t;
        assert(u =~= ser_string(ls[0]) + rest);
        lemma_rt_string(ls[0], rest);
        assert(rest[0] == ']');
        assert(rest.skip(1) =~= t);
        assert(seq![ls[0]] =~= ls);
        assert(parse_string_items(u) == Some((ls, t)));
    } else {
        lemma_rt_string_items(ls.drop_first(), t);
        let rest2 = ser_string_items(ls.drop_first()) + seq![']'] + t;
        let rest = seq![','] + rest2;
        assert(ser_string_items(ls) == ser_string(ls[0]) + seq![','] + ser_string_items(
            ls.drop_first(),
        ));
        assert(u =~= ser_string(ls[0]) + rest);
        lemma_rt_string(ls[0], rest);
        assert(rest[0] == ',');
        assert(rest.len() < u.len());
        assert(rest.skip(1) =~= rest2);
        assert(seq![ls[0]] + ls.drop_first() =~= ls);
        assert(parse_string_items(u) == Some((ls, t)));
    }
}

/// Parsing a serialized string array returns the strings.
proof fn lemma_rt_string_list(ls: Seq<Seq<char>>, t: Seq<char>)
    ensures
        parse_string_list(ser_string_list(ls) + t) == Some((ls, t)),
        (ser_string_list(ls) + t)[0] == '[',
        (ser_string_list(ls) + t).len() > t.len(),
{
    let u = ser_string_list(ls) + t;
    if ls.len() == 0 {
        assert(ser_string_items(ls) == Seq::<char>::empty());
        assert(u =~= seq!['[', ']'] + t);
        assert(u.len() >= 2 && u[0] == '[' && u[1] == ']');
        assert(u.skip(2) =~= t);
        assert(ls =~= Seq::<Seq<char>>::empty());
        assert(parse_string_list(u) == Some((ls, t)));
    } else {
        let inner = ser_string_items(ls) + seq![']'] + t;
        assert(u =~= seq!['['] + inner);
        assert(u[0] == '[');
        assert(ser_string_items(ls)[0] == ser_string(ls[0])[0]);
        assert(ser_string(ls[0])[0] == '"');
        assert(u[1] == '"');
        assert(u.skip(1) =~= inner);
        lemma_rt_string_items(ls, t);
        assert(parse_string_list(u) == Some((ls, t)));
    }
}

/// Parsing a serialized variable object returns the variable.
proof fn lemma_rt_var(v: EnvVariableV, t: Seq<char>)
    ensures
        parse_var(ser_var(v) + t) == Some((v, t)),
        (ser_var(v) + t)[0] == '{',
        (ser_var(v) + t).len() > t.len(),
{
    let u = ser_var(v) + t;
    let u3 = ("}")@ + t;
    let u2b = ser_string(v.value) + u3;
    let u2 = (",\"value\":")@ + u2b;
    let u1b = ser_string(v.name) + u2;
    assert(u =~= ("{\"name\":")@ + u1b);
    lemma_rt_eat(("{\"name\":")@, u1b);
    lemma_rt_string(v.name, u2);
    lemma_rt_eat((",\"value\":")@, u2b);
    lemma_rt_string(v.value, u3);
    lemma_rt_eat(("}")@, t);
    assert(parse_var(u) == Some((v, t)));
    reveal_strlit("{\"name\":");
    assert(("{\"name\":")@.len() == 8);
    assert(("{\"name\":")@[0] == '{');
    assert(u[0] == '{');
    assert(u.len() > t.len());
}

/// Parsing serialized variable-array items returns the variables.
proof fn lemma_rt_var_items(vs: Seq<EnvVariableV>, t: Seq<char>)
    requires
        vs.len() >= 1,
    ensures
        parse_var_items(ser_var_items(vs) + seq![']'] + t) == Some((vs, t)),
    decreases vs.len(),
{
    let u = ser_var_items(vs) + seq![']'] + t;
    if vs.len() == 1 {
        assert(ser_var_items(vs) == ser_var(vs[0]));
        let rest = seq![']'] + t;
        assert(u =~= ser_var(vs[0]) + rest);
        lemma_rt_var(vs[0], rest);
        assert(rest[0] == ']');
        assert(rest.skip(1) =~= t);
        assert(seq![vs[0]] =~= vs);
        assert(parse_var_items(u) == Some((vs, t)));
    } else {
        lemma_rt_var_items(vs.drop_first(), t);
        let rest2 = ser_var_items(vs.drop_first()) + seq![']'] + t;
        let rest = seq![','] + rest2;
        assert(ser_var_items(vs) == ser_var(vs[0]) + seq![','] + ser_var_items(vs.drop_first()));
        assert(u =~= ser_var(vs[0]) + rest);
        lemma_rt_var(vs[0], rest);
        assert(rest[0] == ',');
        assert(rest.len() < u.len());
        assert(rest.skip(1) =~= rest2);
        assert(seq![vs[0]] + vs.drop_first() =~= vs);
        assert(parse_var_items(u) == Some((vs, t)));
    }
}

/// Parsing a serialized variable array returns the variables.
proof fn lemma_rt_var_list(vs: Seq<EnvVariableV>, t: Seq<char>)
    ensures
        parse_var_list(ser_var_list(vs) + t) == Some((vs, t)),
{
    let u = ser_var_list(vs) + t;
    if vs.len() == 0 {
        assert(ser_var_items(vs) == Seq::<char>::empty());
        assert(u =~= seq!['[', ']'] + t);
        assert(u.len() >= 2 && u[0] == '[' && u[1] == ']');
        assert(u.skip(2) =~= t);
        assert(vs =~= Seq::<EnvVariableV>::empty());
        assert(parse_var_list(u) == Some((vs, t)));
    } else {
        let inner = ser_var_items(vs) + seq![']'] + t;
        assert(u =~= seq!['['] + inner);
        assert(u[0] == '[');
        assert(ser_var_items(vs)[0] == ser_var(vs[0])[0]);
        reveal_strlit("{\"name\":");
        assert(("{\"name\":")@.len() == 8);
        assert(("{\"name\":")@[0] == '{');
        assert(ser_var(vs[0])[0] == '{');
        assert(u[1] == '{');
        assert(u.skip(1) =~= inner);
        lemma_rt_var_items(vs, t);
        assert(parse_var_list(u) == Some((vs, t)));
    }
}

/// Parsing a serialized alias object returns the alias.
proof fn lemma_rt_alias(a: EnvAliasV, t: Seq<char>)
    ensures
        parse_alias(ser_alias(a) + t) == Some((a, t)),
        (ser_alias(a) + t)[0] == '{',
        (ser_alias(a) + t).len() > t.len(),
{
    let u = ser_alias(a) + t;
    let u3 = ("}")@ + t;
    let u2b = ser_string_list(a.commands) + u3;
    let u2 = (",\"commands\":")@ + u2b;
    let u1b = ser_string(a.name) + u2;
    assert(u =~= ("{\"name\":")@ + u1b);
    lemma_rt_eat(("{\"name\":")@, u1b);
    lemma_rt_string(a.name, u2);
    lemma_rt_eat((",\"commands\":")@, u2b);
    lemma_rt_string_list(a.commands, u3);
    lemma_rt_eat(("}")@, t);
    assert(parse_alias(u) == Some((a, t)));
    reveal_strlit("{\"name\":");
    assert(("{\"name\":")@.len() == 8);
    assert(("{\"name\":")@[0] == '{');
    assert(u[0] == '{');
    assert(u.len() > t.len());
}

/// Parsing serialized alias-array items returns the aliases.
proof fn lemma_rt_alias_items(als: Seq<EnvAliasV>, t: Seq<char>)
    requires
        als.len() >= 1,
    ensures
        parse_alias_items(ser_alias_items(als) + seq![']'] + t) == Some((als, t)),
    decreases als.len(),
{
    let u = ser_alias_items(als) + seq![']'] + t;
    if als.len() == 1 {
        assert(ser_alias_items(als) == ser_alias(als[0]));
        let rest = seq![']'] + t;
        assert(u =~= ser_alias(als[0]) + rest);
        lemma_rt_alias(als[0], rest);
        assert(rest[0] == ']');
        assert(rest.skip(1) =~= t);
        assert(seq![als[0]] =~= als);
        assert(parse_alias_items(u) == Some((als, t)));
    } else {
        lemma_rt_alias_items(als.drop_first(), t);
        let rest2 = ser_alias_items(als.drop_first()) + seq![']'] + t;
        let rest = seq![','] + rest2;
        assert(ser_alias_items(als) == ser_alias(als[0]) + seq![','] + ser_alias_items(
            als.drop_first(),
        ));
        assert(u =~= ser_alias(als[0]) + rest);
        lemma_rt_alias(als[0], rest);
        assert(rest[0] == ',');
        assert(rest.len() < u.len());
        assert(rest.skip(1) =~= rest2);
        assert(seq![als[0]] + als.drop_first() =~= als);
        assert(parse_alias_items(u) == Some((als, t)));
    }
}

/// Parsing a serialized alias array returns the aliases.
proof fn lemma_rt_alias_list(als: Seq<EnvAliasV>, t: Seq<char>)
    ensures
        parse_alias_list(ser_alias_list(als) + t) == Some((als, t)),
{
    let u = ser_alias_list(als) + t;
    if als.len() == 0 {
        assert(ser_alias_items(als) == Seq::<char>::empty());
        assert(u =~= seq!['[', ']'] + t);
        assert(u.len() >= 2 && u[0] == '[' && u[1] == ']');
        assert(u.skip(2) =~= t);
        assert(als =~= Seq::<EnvAliasV>::empty());
        assert(parse_alias_list(u) == Some((als, t)));
    } else {
        let inner = ser_alias_items(als) + seq![']'] + t;
        assert(u =~= seq!['['] + inner);
        assert(u[0] == '[');
        assert(ser_alias_items(als)[0] == ser_alias(als[0])[0]);
        reveal_strlit("{\"name\":");
        assert(("{\"name\":")@.len() == 8);
        assert(("{\"name\":")@[0] == '{');
        assert(ser_alias(als[0])[0] == '{');
        assert(u[1] == '{');
        assert(u.skip(1) =~= inner);
        lemma_rt_alias_items(als, t);
        assert(parse_alias_list(u) == Some((als, t)));
    }
}

/// Parsing a serialized directory bundle returns the bundle.
#[verifier::rlimit(100)]
#[verifier::spinoff_prover]
proof fn lemma_rt_dir(d: DirCacheV, t: Seq<char>)
    ensures
        parse_dir(ser_dir_cache(d) + t) == Some((d, t)),
        (ser_dir_cache(d) + t).len() > t.len(),
{
    let u = ser_dir_cache(d) + t;
    let u5 = ("}")@ + t;
    let u4b = ser_string_list(d.load_from) + u5;
    let u4 = (",\"load_from\":")@ + u4b;
    let u3b = ser_alias_list(d.aliases) + u4;
    let u3 = (",\"aliases\":")@ + u3b;
    let u2b = ser_string_list(d.run) + u3;
    let u2 = (",\"run\":")@ + u2b;
    let u1b = ser_var_list(d.variables) + u2;
    assert(u =~= ("{\"variables\":")@ + u1b);
    lemma_rt_eat(("{\"variables\":")@, u1b);
    lemma_rt_var_list(d.variables, u2);
    lemma_rt_eat((",\"run\":")@, u2b);
    lemma_rt_string_list(d.run, u3);
    lemma_rt_eat((",\"aliases\":")@, u3b);
    lemma_rt_alias_list(d.aliases, u4);
    lemma_rt_eat((",\"load_from\":")@, u4b);
    lemma_rt_string_list(d.load_from, u5);
    lemma_rt_eat(("}")@, t);
    assert(parse_dir(u) == Some((d, t)));
    reveal_strlit("{\"variables\":");
    assert(("{\"variables\":")@.len() == 13);
    assert(u.len() > t.len());
}

/// Parsing a serialized cache row returns the row.
proof fn lemma_rt_entry(e: CacheEntryV, t: Seq<char>)
    ensures
        parse_entry(ser_entry(e) + t) == Some((e, t)),
        (ser_entry(e) + t)[0] == '"',
        (ser_entry(e) + t).len() > t.len(),
{
    let u = ser_entry(e) + t;
    let u2 = ser_dir_cache(e.dir) + t;
    let u1 = (":")@ + u2;
    assert(u =~= ser_string(e.path) + u1);
    lemma_rt_string(e.path, u1);
    reveal_strlit(":");
    assert((":")@ =~= seq![':']);
    assert(u1[0] == ':');
    assert(u1.skip(1) =~= u2);
    lemma_rt_dir(e.dir, t);
    assert(parse_entry(u) == Some((e, t)));
    assert(u[0] == '"');
    assert(u.len() > t.len());
}

/// Parsing serialized values-object members returns the rows.
#[verifier::rlimit(100)]
#[verifier::spinoff_prover]
proof fn lemma_rt_entry_items(es: Seq<CacheEntryV>, t: Seq<char>)
    requires
        es.len() >= 1,
    ensures
        parse_entry_items(ser_entry_items(es) + seq!['}'] + t) == Some((es, t)),
    decreases es.len(),
{
    let u = ser_entry_items(es) + seq!['}'] + t;
    if es.len() == 1 {
        assert(ser_entry_items(es) == ser_entry(es[0]));
        let rest = seq!['}'] + t;
        assert(u =~= ser_entry(es[0]) + rest);
        lemma_rt_entry(es[0], rest);
        assert(rest[0] == '}');
        assert(rest.skip(1) =~= t);
        assert(seq![es[0]] =~= es);
        assert(parse_entry_items(u) == Some((es, t)));
    } else {
        lemma_rt_entry_items(es.drop_first(), t);
        let rest2 = ser_entry_items(es.drop_first()) + seq!['}'] + t;
        let rest = seq![','] + rest2;
        assert(ser_entry_items(es) == ser_entry(es[0]) + seq![','] + ser_entry_items(
            es.drop_first(),
        ));
        assert(u =~= ser_entry(es[0]) + rest);
        lemma_rt_entry(es[0], rest);
        assert(rest[0] == ',');
        assert(rest.len() < u.len());
        assert(rest.skip(1) =~= rest2);
        assert(seq![es[0]] + es.drop_first() =~= es);
        assert(parse_entry_items(u) == Some((es, t)));
    }
}

/// Parsing a serialized values object returns the rows.
proof fn lemma_rt_values(es: Seq<CacheEntryV>, t: Seq<char>)
    ensures
        parse_values(ser_values(es) + t) == Some((es, t)),
{
    let u = ser_values(es) + t;
    if es.len() == 0 {
        assert(ser_entry_items(es) == Seq::<char>::empty());
        assert(u =~= seq!['{', '}'] + t);
        assert(u.len() >= 2 && u[0] == '{' && u[1] == '}');
        assert(u.skip(2) =~= t);
        assert(es =~= Seq::<CacheEntryV>::empty());
        assert(parse_values(u) == Some((es, t)));
    } else {
        let inner = ser_entry_items(es) + seq!['}'] + t;
        assert(u =~= seq!['{'] + inner);
        assert(u[0] == '{');
        assert(ser_entry_items(es)[0] == ser_entry(es[0])[0]);
        assert(ser_entry(es[0])[0] == ser_string(es[0].path)[0]);
        assert(ser_string(es[0].path)[0] == '"');
        assert(u[1] == '"');
        assert(u.skip(1) =~= inner);
        lemma_rt_entry_items(es, t);
        assert(parse_values(u) == Some((es, t)));
    }
}

/// Parsing a serialized cache document returns the cache.
#[verifier::rlimit(100)]
#[verifier::spinoff_prover]
proof fn lemma_rt_cache_doc(c: CacheV, t: Seq<char>)
    ensures
        parse_cache_doc(ser_cache(c) + t) == Some((c, t)),
{
    let u = ser_cache(c) + t;
    let u4 = ("}")@ + t;
    let u3b = ser_values(c.values) + u4;
    let u3 = (",\"values\":")@ + u3b;
    let u2b = ser_string(c.hash) + u3;
    let u2 = (",\"hash\":")@ + u2b;
    let u1b = ser_string(c.shell) + u2;
    assert(u =~= ("{\"shell\":")@ + u1b);
    lemma_rt_eat(("{\"shell\":")@, u1b);
    lemma_rt_string(c.shell, u2);
    lemma_rt_eat((",\"hash\":")@, u2b);
    lemma_rt_string(c.hash, u3);
    lemma_rt_eat((",\"values\":")@, u3b);
    lemma_rt_values(c.values, u4);
    lemma_rt_eat(("}")@, t);
    assert(parse_cache_doc(u) == Some((c, t)));
}

/// Round trip: parsing a serialized cache reproduces the cache — the
/// shell, the hash and the whole values map, entry for entry.
pub proof fn lemma_cache_round_trip(c: CacheV)
    ensures
        spec_parse_cache(ser_cache(c)) == Some(c),
{
    lemma_rt_cache_doc(c, Seq::<char>::empty());
    assert(ser_cache(c) + Seq::<char>::empty() =~= ser_cache(c));
    assert(parse_cache_doc(ser_cache(c)) == Some((c, Seq::<char>::empty())));
}

} // verus!
