//! The alias record: parsing `alias name=command` lines out of a text
//! and rendering one shell-function block per record.

use vstd::prelude::*;

use crate::errors::ApplicationError;
use crate::text::check_name;
use crate::text::find_char_from;
use crate::text::first_of;
use crate::text::lemma_first_of;
use crate::text::lemma_spec_lines_single;
use crate::text::lemma_spec_lines_split;
use crate::text::spec_lines;
use crate::text::spec_trim;
use crate::text::trim_str;
use crate::text::valid_name;

verus! {

/// One alias read from the input file: a short name bound to the
/// command it stands for.
pub struct Alias {
    pub name: String,
    pub cmd: String,
}

/// The mathematical value of an [`Alias`]: its two fields as character
/// sequences.
pub struct AliasV {
    pub name: Seq<char>,
    pub cmd: Seq<char>,
}

impl View for Alias {
    type V = AliasV;

    open spec fn view(&self) -> AliasV {
        AliasV { name: self.name@, cmd: self.cmd@ }
    }
}

/// A record fit to be written: its name makes a well-formed file name.
pub open spec fn record_wf(a: AliasV) -> bool {
    valid_name(a.name)
}

/// Does `line` begin with the literal, case-sensitive keyword `alias`?
/// No leading whitespace is tolerated.
pub open spec fn begins_with_alias(line: Seq<char>) -> bool {
    line.len() >= 5 && line.subrange(0, 5) == "alias"@
}

/// The name carried by an alias line: what stands between the keyword
/// and the first `=`, trimmed.
pub open spec fn line_name(line: Seq<char>) -> Seq<char> {
    spec_trim(line.subrange(5, first_of(line, '=')))
}

/// The command carried by an alias line: everything after the first
/// `=`, trimmed. A command may itself contain `=` and is kept whole.
pub open spec fn line_cmd(line: Seq<char>) -> Seq<char> {
    spec_trim(line.subrange(first_of(line, '=') + 1, line.len() as int))
}

/// A line the parser accepts: either it does not begin with `alias`
/// (and is skipped), or it carries an `=` and a usable name.
pub open spec fn line_ok(line: Seq<char>) -> bool {
    begins_with_alias(line) ==> first_of(line, '=') >= 0 && valid_name(line_name(line))
}

/// The record an accepted line yields, if any.
pub open spec fn line_record(line: Seq<char>) -> Option<AliasV> {
    if begins_with_alias(line) && first_of(line, '=') >= 0 && valid_name(line_name(line)) {
        Some(AliasV { name: line_name(line), cmd: line_cmd(line) })
    } else {
        None
    }
}

/// The records of one line as a sequence: one for an alias line, none
/// for a skipped line.
pub open spec fn line_records(line: Seq<char>) -> Seq<AliasV> {
    match line_record(line) {
        Some(r) => seq![r],
        None => Seq::empty(),
    }
}

/// Every line of `ls` is acceptable.
pub open spec fn lines_ok(ls: Seq<Seq<char>>) -> bool {
    forall|i: int| 0 <= i < ls.len() ==> line_ok(#[trigger] ls[i])
}

/// The records of all lines of `ls`, in line order.
pub open spec fn records_of(ls: Seq<Seq<char>>) -> Seq<AliasV>
    decreases ls.len(),
{
    if ls.len() == 0 {
        Seq::empty()
    } else {
        line_records(ls[0]) + records_of(ls.drop_first())
    }
}

/// What parsing a whole text yields: the records of its lines in
/// order, or `MalformedAliasLine` when some alias line carries no `=`
/// or no usable name.
pub open spec fn spec_parse(s: Seq<char>) -> Result<Seq<AliasV>, ApplicationError> {
    if lines_ok(spec_lines(s)) {
        Ok(records_of(spec_lines(s)))
    } else {
        Err(ApplicationError::MalformedAliasLine)
    }
}

/// The function block rendered for a record:
/// `function <name>`, the command on a tab-indented line, then `end`,
/// with no trailing newline.
pub open spec fn spec_render(a: AliasV) -> Seq<char> {
    "function "@ + a.name + "\n\t"@ + a.cmd + "\nend"@
}

/// The views of a sequence of records.
pub open spec fn views_of(v: Seq<Alias>) -> Seq<AliasV> {
    v.map_values(|a: Alias| a@)
}

/// Appending a record at the back appends its view at the back.
pub proof fn lemma_views_of_push(v: Seq<Alias>, a: Alias)
    ensures
        views_of(v.push(a)) == views_of(v).push(a@),
{
    assert(views_of(v.push(a)) =~= views_of(v).push(a@));
}

/// Appending a line at the back adds exactly that line's records at
/// the back.
pub proof fn lemma_records_of_push(ls: Seq<Seq<char>>, l: Seq<char>)
    ensures
        records_of(ls.push(l)) == records_of(ls) + line_records(l),
    decreases ls.len(),
{
    if ls.len() == 0 {
        assert(ls.push(l)[0] == l);
        assert(ls.push(l).drop_first() =~= Seq::<Seq<char>>::empty());
        assert(records_of(ls) =~= Seq::<AliasV>::empty());
        assert(records_of(ls.push(l).drop_first()) =~= Seq::<AliasV>::empty());
        assert(records_of(ls.push(l)) =~= records_of(ls) + line_records(l));
    } else {
        assert(ls.push(l)[0] == ls[0]);
        assert(ls.push(l).drop_first() =~= ls.drop_first().push(l));
        lemma_records_of_push(ls.drop_first(), l);
        assert(records_of(ls.push(l)) =~= records_of(ls) + line_records(l));
    }
}

/// Parses one line. A line that does not begin with `alias` yields no
/// record; an alias line yields its record, or `MalformedAliasLine`
/// when it has no `=` or no usable name.
fn parse_line(line: &str) -> (r: Result<Option<Alias>, ApplicationError>)
    ensures
        match r {
            Ok(opt) => line_ok(line@) && (match opt {
                Some(a) => line_record(line@) == Some(a@),
                None => line_record(line@) is None,
            }),
            Err(e) => e == ApplicationError::MalformedAliasLine && !line_ok(line@),
        },
{
    let n = line.unicode_len();
    if n < 5 {
        return Ok(None);
    }
    let c0 = line.get_char(0);
    let c1 = line.get_char(1);
    let c2 = line.get_char(2);
    let c3 = line.get_char(3);
    let c4 = line.get_char(4);
    if !(c0 == 'a' && c1 == 'l' && c2 == 'i' && c3 == 'a' && c4 == 's') {
        proof {
            reveal_strlit("alias");
            if begins_with_alias(line@) {
                assert(line@.subrange(0, 5)[0] == line@[0]);
                assert(line@.subrange(0, 5)[1] == line@[1]);
                assert(line@.subrange(0, 5)[2] == line@[2]);
                assert(line@.subrange(0, 5)[3] == line@[3]);
                assert(line@.subrange(0, 5)[4] == line@[4]);
            }
            assert(!begins_with_alias(line@));
        }
        return Ok(None);
    }
    proof {
        reveal_strlit("alias");
        assert(line@.subrange(0, 5) =~= "alias"@);
    }
    match find_char_from(line, 0, '=') {
        None => {
            proof {
                lemma_first_of(line@, '=');
                assert(first_of(line@, '=') == -1);
            }
            Err(ApplicationError::MalformedAliasLine)
        },
        Some(p) => {
            proof {
                lemma_first_of(line@, '=');
                assert(first_of(line@, '=') == p);
                if p < 5 {
                    assert(p == 0 || p == 1 || p == 2 || p == 3 || p == 4);
                    assert(false);
                }
            }
            let name = trim_str(line.substring_char(5, p));
            if !check_name(name.as_str()) {
                return Err(ApplicationError::MalformedAliasLine);
            }
            let cmd = trim_str(line.substring_char(p + 1, n));
            Ok(Some(Alias::new(name, cmd)))
        },
    }
}

/// One well-formed alias line `alias X=Y` parses to exactly one
/// record: its name is `X` stripped of surrounding blanks, its command
/// is `Y` stripped of surrounding blanks.
pub proof fn lemma_wellformed_line(x: Seq<char>, y: Seq<char>)
    requires
        forall|k: int| 0 <= k < x.len() ==> (#[trigger] x[k]) != '\n' && x[k] != '=',
        forall|k: int| 0 <= k < y.len() ==> (#[trigger] y[k]) != '\n',
        valid_name(spec_trim(x)),
    ensures
        spec_parse("alias"@ + x + "="@ + y) == Ok::<Seq<AliasV>, ApplicationError>(
            seq![AliasV { name: spec_trim(x), cmd: spec_trim(y) }],
        ),
{
    reveal_strlit("alias");
    reveal_strlit("=");
    let a = "alias"@;
    let e = "="@;
    let u = a + x;
    let v = u + e;
    let line = v + y;
    let m = 5 + x.len() as int;
    assert(line.len() == 6 + x.len() + y.len());
    assert forall|k: int| 0 <= k < line.len() implies line[k] != '\n' && (k < m ==> line[k] != '=')
        && (k == m ==> line[k] == '=') by {
        if k < 5 {
            assert(line[k] == v[k]);
            assert(v[k] == u[k]);
            assert(u[k] == a[k]);
        } else if k < m {
            assert(line[k] == v[k]);
            assert(v[k] == u[k]);
            assert(u[k] == x[k - 5]);
        } else if k == m {
            assert(line[k] == v[k]);
            assert(v[k] == e[0]);
        } else {
            assert(line[k] == y[k - m - 1]);
        }
    }
    lemma_spec_lines_single(line);
    assert(begins_with_alias(line)) by {
        assert forall|k: int| 0 <= k < 5 implies line.subrange(0, 5)[k] == a[k] by {
            assert(line.subrange(0, 5)[k] == line[k]);
        }
        assert(line.subrange(0, 5) =~= a);
    }
    assert(line[m] == '=');
    lemma_first_of(line, '=');
    assert(first_of(line, '=') == m);
    assert(line.subrange(5, m) =~= x);
    assert(line.subrange(m + 1, line.len() as int) =~= y);
    assert(line_name(line) == spec_trim(x));
    assert(line_cmd(line) == spec_trim(y));
    let rec = AliasV { name: spec_trim(x), cmd: spec_trim(y) };
    assert(line_record(line) == Some(rec));
    assert(lines_ok(seq![line])) by {
        assert(seq![line][0] == line);
    }
    assert(records_of(seq![line]) =~= seq![rec]) by {
        assert(seq![line][0] == line);
        assert(seq![line].drop_first() =~= Seq::<Seq<char>>::empty());
        assert(records_of(seq![line].drop_first()) =~= Seq::<AliasV>::empty());
    }
}

/// A line that does not begin with the keyword `alias` is accepted and
/// yields no record.
pub proof fn lemma_non_alias_line_skipped(l: Seq<char>)
    requires
        !begins_with_alias(l),
    ensures
        line_ok(l),
        line_record(l) is None,
{
}

/// A text none of whose lines begins with the keyword `alias` parses
/// to no records at all.
pub proof fn lemma_non_alias_lines_yield_nothing(ls: Seq<Seq<char>>)
    requires
        forall|i: int| 0 <= i < ls.len() ==> !begins_with_alias(#[trigger] ls[i]),
    ensures
        lines_ok(ls),
        records_of(ls) == Seq::<AliasV>::empty(),
    decreases ls.len(),
{
    if ls.len() > 0 {
        assert forall|i: int| 0 <= i < ls.drop_first().len() implies !begins_with_alias(
            #[trigger] ls.drop_first()[i],
        ) by {
            assert(ls.drop_first()[i] == ls[i + 1]);
        }
        lemma_non_alias_lines_yield_nothing(ls.drop_first());
        assert(records_of(ls) =~= Seq::<AliasV>::empty());
    }
}

/// Every record a successful parse yields satisfies the record
/// invariant: its name is non-empty and usable as a file name.
pub proof fn lemma_parsed_records_wf(ls: Seq<Seq<char>>)
    requires
        lines_ok(ls),
    ensures
        forall|i: int| 0 <= i < records_of(ls).len() ==> record_wf(#[trigger] records_of(ls)[i]),
    decreases ls.len(),
{
    if ls.len() > 0 {
        assert forall|i: int| 0 <= i < ls.drop_first().len() implies line_ok(
            #[trigger] ls.drop_first()[i],
        ) by {
            assert(ls.drop_first()[i] == ls[i + 1]);
        }
        lemma_parsed_records_wf(ls.drop_first());
        let head = line_records(ls[0]);
        let rest = records_of(ls.drop_first());
        assert(records_of(ls) == head + rest);
        assert forall|i: int| 0 <= i < records_of(ls).len() implies record_wf(
            #[trigger] records_of(ls)[i],
        ) by {
            if i < head.len() {
                assert(line_ok(ls[0]));
                assert(records_of(ls)[i] == head[i]);
            } else {
                assert(records_of(ls)[i] == rest[i - head.len()]);
            }
        }
    }
}

impl Alias {
    /// Binds a name to a command.
    pub fn new(n: String, c: String) -> (a: Alias)
        ensures
            a@ == (AliasV { name: n@, cmd: c@ }),
    {
        Alias { name: n, cmd: c }
    }

    /// Extracts the alias records of a whole text, one per line that
    /// begins with `alias`, in line order. Fails with
    /// `MalformedAliasLine` when some alias line carries no `=` or no
    /// usable name; other lines are silently skipped.
    pub fn parse(s: String) -> (r: Result<Vec<Alias>, ApplicationError>)
        ensures
            match r {
                Ok(v) => spec_parse(s@) == Ok::<Seq<AliasV>, ApplicationError>(views_of(v@)),
                Err(e) => spec_parse(s@) == Err::<Seq<AliasV>, ApplicationError>(e),
            },
    {
        let text = s.as_str();
        let n = text.unicode_len();
        let mut out: Vec<Alias> = Vec::new();
        let mut start: usize = 0;
        let ghost mut done: Seq<Seq<char>> = Seq::empty();
        proof {
            assert(s@.subrange(0, n as int) =~= s@);
            assert(done + spec_lines(s@) =~= spec_lines(s@));
            assert(views_of(out@) =~= Seq::<AliasV>::empty());
        }
        loop
            invariant_except_break
                spec_lines(s@) == done + spec_lines(s@.subrange(start as int, n as int)),
            invariant
                n == s@.len(),
                text@ == s@,
                start <= n,
                lines_ok(done),
                views_of(out@) == records_of(done),
            ensures
                lines_ok(spec_lines(s@)),
                views_of(out@) == records_of(spec_lines(s@)),
            decreases n - start,
        {
            let opt_nl = find_char_from(text, start, '\n');
            let end = match opt_nl {
                Some(p) => p,
                None => n,
            };
            let ghost suffix = s@.subrange(start as int, n as int);
            let ghost lineseq = s@.subrange(start as int, end as int);
            proof {
                assert forall|k: int| 0 <= k < end - start implies suffix[k] != '\n' by {
                    assert(suffix[k] == s@[start + k]);
                }
                if end < n {
                    assert(suffix[end - start] == s@[end as int]);
                    lemma_spec_lines_split(suffix, end - start);
                    assert(suffix.subrange(0, end - start) =~= lineseq);
                    assert(suffix.subrange(end - start + 1, suffix.len() as int) =~= s@.subrange(
                        end + 1,
                        n as int,
                    ));
                } else {
                    assert(suffix =~= lineseq);
                    lemma_spec_lines_single(suffix);
                }
            }
            let line = text.substring_char(start, end);
            match parse_line(line) {
                Err(e) => {
                    proof {
                        if end < n {
                            let rest = spec_lines(s@.subrange(end + 1, n as int));
                            assert((seq![lineseq] + rest)[0] == lineseq);
                            assert((done + (seq![lineseq] + rest))[done.len() as int] == lineseq);
                        } else {
                            assert((done + seq![lineseq])[done.len() as int] == lineseq);
                        }
                        assert(spec_lines(s@)[done.len() as int] == lineseq);
                        assert(!lines_ok(spec_lines(s@)));
                    }
                    return Err(e);
                },
                Ok(opt) => {
                    proof {
                        lemma_records_of_push(done, lineseq);
                    }
                    match opt {
                        Some(a) => {
                            proof {
                                lemma_views_of_push(out@, a);
                            }
                            out.push(a);
                        },
                        None => {},
                    }
                    proof {
                        done = done.push(lineseq);
                        assert(lines_ok(done));
                        assert(views_of(out@) =~= records_of(done));
                    }
                },
            }
            if end >= n {
                proof {
                    assert(done =~= spec_lines(s@));
                }
                break;
            }
            start = end + 1;
            proof {
                assert(done + spec_lines(s@.subrange(start as int, n as int)) =~= spec_lines(s@));
            }
        }
        Ok(out)
    }

    /// Renders this record's function block, exactly as `spec_render`
    /// describes.
    pub fn function(&self) -> (r: String)
        ensures
            r@ == spec_render(self@),
    {
        let mut r = String::from_str("function ");
        r.append(self.name.as_str());
        r.append("\n\t");
        r.append(self.cmd.as_str());
        r.append("\nend");
        proof {
            assert(r@ =~= spec_render(self@));
        }
        r
    }
}

} // verus!
