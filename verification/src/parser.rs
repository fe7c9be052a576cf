//! The argument parser: raw tokens in, a validated operation list out.
//!
//! The grammar is specified once, as the recursive spec function
//! [`parse_from`], and `ArgsParser::parse_args` is proved to return exactly
//! what that function says: the same operations in encounter order, or the
//! same kind of error. The first token is always the invoking program's own
//! name and is discarded.

use vstd::prelude::*;
use vstd::string::StrSliceExecFns;
use vstd::string::StringExecFns;

use crate::recursive_descent_parser::RecursiveDescentParser;
use crate::text::{
    is_i32_numeral, is_u32_numeral, i32_numeral_val, u32_numeral_val, join_with, parse_i32,
    parse_u32, str_eq, u64_to_string,
};

verus! {

#[derive(Debug)]
pub enum ParsingErr {
    Unknown(String),
    Quality(String),
    Resize(String),
    Filepath(String),
    Merge(String),
    ShouldNotHappen,
}

#[derive(Debug, Clone, PartialEq)]
pub enum ExecutionType {
    Default,
    Preview,
}

#[derive(Debug, PartialEq)]
pub enum ParsedArg {
    Resize((i32, i32)),
    Quality(u32),
    Merge(Vec<String>),
    ExecutionType(ExecutionType),
    OutFilePath(String),
}

/// The kind of a parsing error, with the diagnostic message abstracted away.
pub enum ParseErrKind {
    Unknown,
    Quality,
    Resize,
    Filepath,
    Merge,
    ShouldNotHappen,
}

impl View for ParsingErr {
    type V = ParseErrKind;

    open spec fn view(&self) -> ParseErrKind {
        match self {
            ParsingErr::Unknown(_) => ParseErrKind::Unknown,
            ParsingErr::Quality(_) => ParseErrKind::Quality,
            ParsingErr::Resize(_) => ParseErrKind::Resize,
            ParsingErr::Filepath(_) => ParseErrKind::Filepath,
            ParsingErr::Merge(_) => ParseErrKind::Merge,
            ParsingErr::ShouldNotHappen => ParseErrKind::ShouldNotHappen,
        }
    }
}

/// The mathematical value of a parsed operation: token strings as `Seq<char>`,
/// dimensions and scores as unbounded integers.
pub enum ArgModel {
    Resize(int, int),
    Quality(nat),
    Merge(Seq<Seq<char>>),
    ExecutionType(ExecutionType),
    OutFilePath(Seq<char>),
}

impl View for ParsedArg {
    type V = ArgModel;

    open spec fn view(&self) -> ArgModel {
        match self {
            ParsedArg::Resize(d) => ArgModel::Resize(d.0 as int, d.1 as int),
            ParsedArg::Quality(q) => ArgModel::Quality(*q as nat),
            ParsedArg::Merge(paths) => ArgModel::Merge(paths.deep_view()),
            ParsedArg::ExecutionType(e) => ArgModel::ExecutionType(*e),
            ParsedArg::OutFilePath(p) => ArgModel::OutFilePath(p@),
        }
    }
}

pub open spec fn ops_view(args: Seq<ParsedArg>) -> Seq<ArgModel> {
    args.map_values(|a: ParsedArg| a@)
}

/// Number of `:` characters in a token.
pub open spec fn colon_count(s: Seq<char>) -> nat
    decreases s.len(),
{
    if s.len() == 0 {
        0
    } else {
        colon_count(s.drop_last()) + if s.last() == ':' {
            1nat
        } else {
            0nat
        }
    }
}

/// Index of the first `:` in `s` at or after `i`; `s.len()` if there is none.
pub open spec fn first_colon_from(s: Seq<char>, i: int) -> int
    decreases s.len() - i when 0 <= i <= s.len()
{
    if i >= s.len() {
        i
    } else if s[i] == ':' {
        i
    } else {
        first_colon_from(s, i + 1)
    }
}

pub open spec fn first_colon(s: Seq<char>) -> int {
    first_colon_from(s, 0)
}

/// The part of a `W:H` token before its (unique) colon.
pub open spec fn resize_w(s: Seq<char>) -> Seq<char> {
    s.take(first_colon(s))
}

/// The part of a `W:H` token after its (unique) colon.
pub open spec fn resize_h(s: Seq<char>) -> Seq<char> {
    s.skip(first_colon(s) + 1)
}

/// A valid resize token: exactly one `:`, and both parts signed numerals.
pub open spec fn is_resize_token(s: Seq<char>) -> bool {
    colon_count(s) == 1 && is_i32_numeral(resize_w(s)) && is_i32_numeral(resize_h(s))
}

/// Where a `--merge` path run stops, given that the paths start at `p`: just
/// before the final token (reserved for the output path), or immediately if
/// fewer than two tokens remain.
pub open spec fn merge_end(len: int, p: int) -> int {
    if p < len - 1 {
        len - 1
    } else {
        p
    }
}

/// The grammar itself: what parsing the tokens from position `i` onward
/// yields. Flags may repeat and come in any order; a bare token is an output
/// path and must be the final token.
pub open spec fn parse_from(toks: Seq<Seq<char>>, i: int) -> Result<Seq<ArgModel>, ParseErrKind>
    decreases toks.len() - i when 0 <= i <= toks.len()
{
    if i >= toks.len() {
        Ok(Seq::empty())
    } else {
        let t = toks[i];
        if t == "--resize"@ {
            if i + 1 < toks.len() && is_resize_token(toks[i + 1]) {
                prepend_parse(
                    seq![
                        ArgModel::Resize(
                            i32_numeral_val(resize_w(toks[i + 1])),
                            i32_numeral_val(resize_h(toks[i + 1])),
                        ),
                    ],
                    parse_from(toks, i + 2),
                )
            } else {
                Err(ParseErrKind::Resize)
            }
        } else if t == "--quality"@ {
            if i + 1 < toks.len() && is_u32_numeral(toks[i + 1]) {
                prepend_parse(
                    seq![ArgModel::Quality(u32_numeral_val(toks[i + 1]))],
                    parse_from(toks, i + 2),
                )
            } else {
                Err(ParseErrKind::Quality)
            }
        } else if t == "--preview"@ {
            prepend_parse(
                seq![ArgModel::ExecutionType(ExecutionType::Preview)],
                parse_from(toks, i + 1),
            )
        } else if t == "--merge"@ {
            let end = merge_end(toks.len() as int, i + 1);
            if end - (i + 1) < 2 {
                Err(ParseErrKind::Merge)
            } else {
                prepend_parse(
                    seq![ArgModel::Merge(toks.subrange(i + 1, end))],
                    parse_from(toks, end),
                )
            }
        } else {
            if i < toks.len() - 1 {
                Err(ParseErrKind::Unknown)
            } else {
                prepend_parse(seq![ArgModel::OutFilePath(t)], parse_from(toks, i + 1))
            }
        }
    }
}

/// Prefixes the operations of a successful parse; passes an error through.
pub open spec fn prepend_parse(
    ops: Seq<ArgModel>,
    r: Result<Seq<ArgModel>, ParseErrKind>,
) -> Result<Seq<ArgModel>, ParseErrKind> {
    match r {
        Ok(rest) => Ok(ops + rest),
        Err(k) => Err(k),
    }
}

pub open spec fn is_flag(t: Seq<char>) -> bool {
    t == "--resize"@ || t == "--quality"@ || t == "--preview"@ || t == "--merge"@
}

pub struct ArgsParser<'a> {
    parser: RecursiveDescentParser<'a, String>,
    parsed_args: Vec<ParsedArg>,
}

impl<'a> ArgsParser<'a> {
    /// The token sequence being parsed, as character sequences.
    pub closed spec fn toks(self) -> Seq<Seq<char>> {
        self.parser.tokens().map_values(|t: String| t@)
    }

    /// How many tokens have been consumed.
    pub closed spec fn pos(self) -> nat {
        self.parser.pos()
    }

    /// The operations accumulated so far.
    pub closed spec fn ops(self) -> Seq<ArgModel> {
        ops_view(self.parsed_args@)
    }

    pub open spec fn wf(self) -> bool {
        self.pos() <= self.toks().len()
    }

    /// A parser that has not consumed anything yet.
    pub open spec fn fresh(self) -> bool {
        self.pos() == 0 && self.ops() == Seq::<ArgModel>::empty()
    }

    pub fn new(args: &'a Vec<String>) -> (r: ArgsParser<'a>)
        ensures
            r.toks() == args.deep_view(),
            r.wf(),
            r.fresh(),
    {
        let r = ArgsParser { parser: RecursiveDescentParser::new(args), parsed_args: Vec::new() };
        proof {
            assert(r.toks() =~~= args.deep_view());
            assert(r.ops() =~= Seq::<ArgModel>::empty());
        }
        r
    }

    /// Parses the whole token stream. The first token (the program's own
    /// name) is discarded; the rest must satisfy the grammar given by
    /// [`parse_from`]. Returns the operations in encounter order, or the
    /// first error, exactly as `parse_from` says.
    pub fn parse_args(&mut self) -> (r: Result<Vec<ParsedArg>, ParsingErr>)
        requires
            old(self).wf(),
            old(self).fresh(),
        ensures
            ({
                let toks = old(self).toks();
                if toks.len() == 0 {
                    r matches Err(e) && e@ is ShouldNotHappen
                } else {
                    match parse_from(toks, 1) {
                        Ok(ops) => r matches Ok(v) && ops_view(v@) == ops,
                        Err(k) => r matches Err(e) && e@ == k,
                    }
                }
            }),
    {
        let ghost toks = self.toks();
        // Eliminate the call to the executable itself
        match self.parser.next() {
            Some(_) => (),
            None => {
                return Err(ParsingErr::ShouldNotHappen);
            },
        }
        proof {
            lemma_flag_literals_distinct();
            if parse_from(toks, 1) is Ok {
                assert(Seq::<ArgModel>::empty() + parse_from(toks, 1)->Ok_0 =~= parse_from(
                    toks,
                    1,
                )->Ok_0);
            }
        }
        loop
            invariant
                self.wf(),
                self.toks() == toks,
                toks == old(self).toks(),
                toks.len() >= 1,
                1 <= self.pos() <= toks.len(),
                prepend_parse(self.ops(), parse_from(toks, self.pos() as int)) == parse_from(
                    toks,
                    1,
                ),
            decreases toks.len() - self.pos(),
        {
            let ghost p = self.pos() as int;
            let ghost acc = self.ops();
            let arg = match self.parser.next() {
                Some(arg) => arg,
                None => {
                    let mut out: Vec<ParsedArg> = Vec::new();
                    core::mem::swap(&mut out, &mut self.parsed_args);
                    proof {
                        assert(parse_from(toks, p) == Ok::<Seq<ArgModel>, ParseErrKind>(
                            Seq::empty(),
                        ));
                        assert(acc + Seq::<ArgModel>::empty() =~= acc);
                    }
                    return Ok(out);
                },
            };
            proof {
                assert(arg@ == toks[p]);
            }
            let res = if str_eq(arg.as_str(), "--resize") {
                self.parse_arg_resize()
            } else if str_eq(arg.as_str(), "--quality") {
                self.parse_arg_quality()
            } else if str_eq(arg.as_str(), "--preview") {
                self.parse_arg_preview()
            } else if str_eq(arg.as_str(), "--merge") {
                self.parse_arg_merge()
            } else {
                self.parse_out_pathname(arg.as_str())
            };
            let parsed_arg = match res {
                Ok(a) => a,
                Err(e) => {
                    proof {
                        assert(parse_from(toks, p) == Err::<Seq<ArgModel>, ParseErrKind>(e@));
                    }
                    return Err(e);
                },
            };
            proof {
                assert(parse_from(toks, p) == prepend_parse(
                    seq![parsed_arg@],
                    parse_from(toks, self.pos() as int),
                ));
                if parse_from(toks, p) is Ok {
                    let op = seq![parsed_arg@];
                    let rest = parse_from(toks, self.pos() as int)->Ok_0;
                    assert((acc + op) + rest =~= acc + (op + rest));
                }
            }
            self.parsed_args.push(parsed_arg);
            proof {
                assert(self.ops() =~= acc.push(parsed_arg@));
                assert(acc.push(parsed_arg@) =~= acc + seq![parsed_arg@]);
            }
        }
    }

    fn parse_arg_quality(&mut self) -> (r: Result<ParsedArg, ParsingErr>)
        requires
            old(self).wf(),
        ensures
            final(self).wf(),
            final(self).toks() == old(self).toks(),
            final(self).ops() == old(self).ops(),
            ({
                let toks = old(self).toks();
                let p = old(self).pos() as int;
                if p < toks.len() && is_u32_numeral(toks[p]) {
                    r matches Ok(a) && a@ == ArgModel::Quality(u32_numeral_val(toks[p]))
                        && final(self).pos() == p + 1
                } else {
                    r matches Err(e) && e@ is Quality
                }
            }),
    {
        let arg_value_string = match self.parser.next_or(
            ParsingErr::Quality(
                String::from_str(
                    "Expected quality value after filter `quality` (eg: --quality 50), found nothing.",
                ),
            ),
        ) {
            Ok(v) => v,
            Err(e) => {
                return Err(e);
            },
        };

        match parse_u32(arg_value_string.as_str()) {
            Some(arg_value) => Ok(ParsedArg::Quality(arg_value)),
            None => {
                let mut msg = String::from_str("Value `");
                msg.append(arg_value_string.as_str());
                msg.append("` is not a valid positive integer (eg: 50).");
                Err(ParsingErr::Quality(msg))
            },
        }
    }

    fn parse_arg_resize(&mut self) -> (r: Result<ParsedArg, ParsingErr>)
        requires
            old(self).wf(),
        ensures
            final(self).wf(),
            final(self).toks() == old(self).toks(),
            final(self).ops() == old(self).ops(),
            ({
                let toks = old(self).toks();
                let p = old(self).pos() as int;
                if p < toks.len() && is_resize_token(toks[p]) {
                    r matches Ok(a) && a@ == ArgModel::Resize(
                        i32_numeral_val(resize_w(toks[p])),
                        i32_numeral_val(resize_h(toks[p])),
                    ) && final(self).pos() == p + 1
                } else {
                    r matches Err(e) && e@ is Resize
                }
            }),
    {
        let arg_value = match self.parser.next_or(
            ParsingErr::Resize(
                String::from_str(
                    "Expected resize dimensions after filter `resize` (eg: --resize 1920:1080), found nothing.",
                ),
            ),
        ) {
            Ok(v) => v,
            Err(e) => {
                return Err(e);
            },
        };

        let s = arg_value.as_str();
        let n = s.unicode_len();
        let mut count: usize = 0;
        let mut idx: usize = n;
        let mut i: usize = 0;
        while i < n
            invariant
                n == s@.len(),
                0 <= i <= n,
                count == colon_count(s@.take(i as int)),
                count <= i,
                count > 0 ==> idx < i && s@[idx as int] == ':' && (forall|j: int|
                    0 <= j < idx ==> s@[j] != ':'),
                count == 0 ==> idx == n && (forall|j: int| 0 <= j < i ==> s@[j] != ':'),
            decreases n - i,
        {
            proof {
                assert(s@.take(i + 1).drop_last() =~= s@.take(i as int));
            }
            if s.get_char(i) == ':' {
                if count == 0 {
                    idx = i;
                }
                count = count + 1;
            }
            i = i + 1;
        }
        proof {
            assert(s@.take(n as int) =~= s@);
        }
        if count != 1 {
            let mut msg = String::from_str("Values `");
            msg.append(s);
            msg.append("` are not valid dimensions (eg: 1920:1080).");
            return Err(ParsingErr::Resize(msg));
        }
        proof {
            lemma_first_colon_at(s@, 0, idx as int);
        }
        let w_str = s.substring_char(0, idx);
        let h_str = s.substring_char(idx + 1, n);
        proof {
            assert(w_str@ =~= resize_w(s@));
            assert(h_str@ =~= resize_h(s@));
        }
        match (parse_i32(w_str), parse_i32(h_str)) {
            (Some(width), Some(heigth)) => Ok(ParsedArg::Resize((width, heigth))),
            _ => {
                let mut msg = String::from_str("Value `");
                msg.append(s);
                msg.append("` is not valid dimension (eg: 1920:1080)");
                Err(ParsingErr::Resize(msg))
            },
        }
    }

    fn parse_arg_preview(&mut self) -> (r: Result<ParsedArg, ParsingErr>)
        requires
            old(self).wf(),
        ensures
            *final(self) == *old(self),
            r matches Ok(a) && a@ == ArgModel::ExecutionType(ExecutionType::Preview),
    {
        Ok(ParsedArg::ExecutionType(ExecutionType::Preview))
    }

    /// Path validation is a pass-through: any string is accepted as a path.
    /// Existence checking is deliberately disabled.
    fn pathname_parser(pathname: &str) -> (r: Result<String, ParsingErr>)
        ensures
            r matches Ok(p) && p@ == pathname@,
    {
        Ok(String::from_str(pathname))
    }

    fn parse_out_pathname(&mut self, pathname: &str) -> (r: Result<ParsedArg, ParsingErr>)
        requires
            old(self).wf(),
        ensures
            *final(self) == *old(self),
            ({
                let toks = old(self).toks();
                let p = old(self).pos() as int;
                if p < toks.len() {
                    r matches Err(e) && e@ is Unknown
                } else {
                    r matches Ok(a) && a@ == ArgModel::OutFilePath(pathname@)
                }
            }),
    {
        if self.parser.tokens_left() >= 1 {
            let mut msg = String::from_str("Argument `");
            msg.append(pathname);
            msg.append("` is unreconized.");
            return Err(ParsingErr::Unknown(msg));
        }

        match Self::pathname_parser(pathname) {
            Ok(filepath) => Ok(ParsedArg::OutFilePath(filepath)),
            Err(e) => Err(e),
        }
    }

    fn parse_arg_merge(&mut self) -> (r: Result<ParsedArg, ParsingErr>)
        requires
            old(self).wf(),
        ensures
            final(self).wf(),
            final(self).toks() == old(self).toks(),
            final(self).ops() == old(self).ops(),
            ({
                let toks = old(self).toks();
                let p = old(self).pos() as int;
                let end = merge_end(toks.len() as int, p);
                if end - p < 2 {
                    r matches Err(e) && e@ is Merge
                } else {
                    r matches Ok(a) && a@ == ArgModel::Merge(toks.subrange(p, end))
                        && final(self).pos() == end
                }
            }),
    {
        let ghost toks = self.toks();
        let ghost p = self.pos() as int;
        let ghost end = merge_end(toks.len() as int, p);
        let mut parsed_merged_files: Vec<String> = Vec::new();
        loop
            invariant
                self.wf(),
                self.toks() == toks,
                toks == old(self).toks(),
                self.ops() == old(self).ops(),
                p == old(self).pos(),
                p <= self.pos() <= end <= toks.len(),
                end == merge_end(toks.len() as int, p),
                parsed_merged_files@.len() == self.pos() - p,
                forall|k: int|
                    0 <= k < parsed_merged_files@.len() ==> (#[trigger] parsed_merged_files@[k])@
                        == toks[p + k],
            ensures
                self.wf(),
                self.toks() == toks,
                self.ops() == old(self).ops(),
                self.pos() == end,
                parsed_merged_files@.len() == end - p,
                forall|k: int|
                    0 <= k < parsed_merged_files@.len() ==> (#[trigger] parsed_merged_files@[k])@
                        == toks[p + k],
            decreases end - self.pos(),
        {
            if self.parser.tokens_left() == 1 {
                break ;
            }
            let ghost q = self.pos() as int;
            match self.parser.next() {
                Some(filepath) => {
                    proof {
                        assert(filepath@ == toks[q]);
                    }
                    let parsed = match Self::pathname_parser(filepath.as_str()) {
                        Ok(f) => f,
                        Err(e) => {
                            return Err(e);
                        },
                    };
                    parsed_merged_files.push(parsed);
                },
                None => {
                    break ;
                },
            }
        }
        proof {
            assert(parsed_merged_files.deep_view() =~~= toks.subrange(p, end));
        }
        if parsed_merged_files.len() < 2 {
            let mut msg = String::from_str(
                "Expected at least 2 filenames in filter `merge` (eg.: --merge a.mp4 b.mp4), found ",
            );
            let cnt = u64_to_string(parsed_merged_files.len() as u64);
            msg.append(cnt.as_str());
            msg.append(" (");
            let joined = join_with(&parsed_merged_files, ",");
            msg.append(joined.as_str());
            msg.append(") filename(s).");
            Err(ParsingErr::Merge(msg))
        } else {
            Ok(ParsedArg::Merge(parsed_merged_files))
        }
    }
}

/// The four flag tokens are pairwise distinct strings.
proof fn lemma_flag_literals_distinct()
    ensures
        "--resize"@ != "--quality"@,
        "--resize"@ != "--preview"@,
        "--resize"@ != "--merge"@,
        "--quality"@ != "--preview"@,
        "--quality"@ != "--merge"@,
        "--preview"@ != "--merge"@,
{
    reveal_strlit("--resize");
    reveal_strlit("--quality");
    reveal_strlit("--preview");
    reveal_strlit("--merge");
    assert("--resize"@.len() == 8 && "--quality"@.len() == 9 && "--preview"@.len() == 9
        && "--merge"@.len() == 7);
    assert("--quality"@[2] == 'q' && "--preview"@[2] == 'p');
}

/// If `s` has no colon before `idx` and one at `idx` (or none at all and
/// `idx == s.len()`), then `idx` is where `first_colon_from` points.
proof fn lemma_first_colon_at(s: Seq<char>, i: int, idx: int)
    requires
        0 <= i <= idx <= s.len(),
        forall|j: int| i <= j < idx ==> s[j] != ':',
        idx < s.len() ==> s[idx] == ':',
    ensures
        first_colon_from(s, i) == idx,
    decreases idx - i,
{
    if i < idx {
        lemma_first_colon_at(s, i + 1, idx);
    }
}

/// A bare trailing token is accepted as an output path exactly when it is the
/// sole remaining token; a bare token with anything after it fails the whole
/// parse with `Unknown`.
pub proof fn lemma_out_path_only_when_last(toks: Seq<Seq<char>>, i: int)
    requires
        0 <= i < toks.len(),
        !is_flag(toks[i]),
    ensures
        i == toks.len() - 1 ==> parse_from(toks, i) == Ok::<Seq<ArgModel>, ParseErrKind>(
            seq![ArgModel::OutFilePath(toks[i])],
        ),
        i < toks.len() - 1 ==> parse_from(toks, i) == Err::<Seq<ArgModel>, ParseErrKind>(
            ParseErrKind::Unknown,
        ),
{
    if i == toks.len() - 1 {
        assert(parse_from(toks, i + 1) == Ok::<Seq<ArgModel>, ParseErrKind>(Seq::empty()));
        assert(seq![ArgModel::OutFilePath(toks[i])] + Seq::<ArgModel>::empty() =~= seq![
            ArgModel::OutFilePath(toks[i]),
        ]);
    }
}

/// In any successful parse, an output path can only be the last operation:
/// the operation list has at most one `OutFilePath`, and it closes the list.
pub proof fn lemma_out_path_is_final(toks: Seq<Seq<char>>, i: int, ops: Seq<ArgModel>, j: int)
    requires
        0 <= i <= toks.len(),
        parse_from(toks, i) == Ok::<Seq<ArgModel>, ParseErrKind>(ops),
        0 <= j < ops.len(),
        ops[j] is OutFilePath,
    ensures
        j == ops.len() - 1,
    decreases toks.len() - i,
{
    if i < toks.len() {
        let t = toks[i];
        if t == "--resize"@ {
            let rest = parse_from(toks, i + 2)->Ok_0;
            if j > 0 {
                lemma_out_path_is_final(toks, i + 2, rest, j - 1);
            }
        } else if t == "--quality"@ {
            let rest = parse_from(toks, i + 2)->Ok_0;
            if j > 0 {
                lemma_out_path_is_final(toks, i + 2, rest, j - 1);
            }
        } else if t == "--preview"@ {
            let rest = parse_from(toks, i + 1)->Ok_0;
            if j > 0 {
                lemma_out_path_is_final(toks, i + 1, rest, j - 1);
            }
        } else if t == "--merge"@ {
            let end = merge_end(toks.len() as int, i + 1);
            let rest = parse_from(toks, end)->Ok_0;
            if j > 0 {
                lemma_out_path_is_final(toks, end, rest, j - 1);
            }
        } else {
            let rest = parse_from(toks, i + 1)->Ok_0;
            if j > 0 {
                lemma_out_path_is_final(toks, i + 1, rest, j - 1);
            }
        }
    }
}

/// A valid `W:H` token after `--resize` parses to `Resize(W, H)`: the model
/// holds exactly the two numerals' values, sign and magnitude included.
pub proof fn lemma_resize_exact(toks: Seq<Seq<char>>, i: int)
    requires
        0 <= i,
        i + 1 < toks.len(),
        toks[i] == "--resize"@,
        is_resize_token(toks[i + 1]),
    ensures
        parse_from(toks, i) == prepend_parse(
            seq![
                ArgModel::Resize(
                    i32_numeral_val(resize_w(toks[i + 1])),
                    i32_numeral_val(resize_h(toks[i + 1])),
                ),
            ],
            parse_from(toks, i + 2),
        ),
{
}

/// `--merge` fails with a `Merge` error exactly when fewer than two paths can
/// be collected; with two or more it yields `Merge` over precisely those
/// paths, in order.
pub proof fn lemma_merge_needs_two_paths(toks: Seq<Seq<char>>, i: int)
    requires
        0 <= i < toks.len(),
        toks[i] == "--merge"@,
    ensures
        ({
            let end = merge_end(toks.len() as int, i + 1);
            &&& end - (i + 1) < 2 ==> parse_from(toks, i) == Err::<Seq<ArgModel>, ParseErrKind>(
                ParseErrKind::Merge,
            )
            &&& end - (i + 1) >= 2 ==> parse_from(toks, i) == prepend_parse(
                seq![ArgModel::Merge(toks.subrange(i + 1, end))],
                parse_from(toks, end),
            )
        }),
{
    lemma_flag_literals_distinct();
}

} // verus!
