//! The parser of documentation comments: the tags of a comment, and the
//! grammar of the type expressions that the tags carry.

use vstd::prelude::*;
use vstd::slice::slice_subrange;
use vstd::string::StringSliceAdditionalSpecFns;
use crate::analyzer::phpdoc::types::{
    exprs, field_exprs, MethodTag, ParamTag, PropertyTag, ReturnTag, ThrowsTag, TypeExpr,
    TypeExpression, VarTag,
};
use crate::analyzer::text::{
    bytes_eq, ends_with, index_from, index_of_from, space_at, space_len_at,
    lemma_line_break_bounds, lemma_rows_push, lemma_trim_end_is_prefix,
    lemma_trim_start_is_suffix, line_break_at, line_text_at, lines, lines_from, rfind_byte,
    rfind_byte_in, rows, split, split_bytes, starts_with, strip_leading, strip_leading_byte,
    to_vec, trim, trim_bytes, trim_start, trim_start_bytes,
};

verus! {

/// The mathematical value of a [`PhpDocComment`].
pub ghost struct Doc {
    /// The `@param` tags: name and type, in order.
    pub params: Seq<(Seq<u8>, TypeExpr)>,
    /// The type of the last `@return` tag.
    pub return_type: Option<TypeExpr>,
    /// The last `@var` tag: name, if it has one, and type.
    pub var: Option<(Option<Seq<u8>>, TypeExpr)>,
    /// The `@throws` tags: exception type and description, in order.
    pub throws: Seq<(Seq<u8>, Option<Seq<u8>>)>,
}

/// Represents a parsed PHPDoc comment. The parser reads no property and no
/// method tags: these two lists stay empty.
#[derive(Debug, Clone)]
pub struct PhpDocComment {
    pub params: Vec<ParamTag>,
    pub return_tag: Option<ReturnTag>,
    pub var_tag: Option<VarTag>,
    pub throws: Vec<ThrowsTag>,
    pub properties: Vec<PropertyTag>,
    pub methods: Vec<MethodTag>,
}

/// The bytes of an optional text.
pub open spec fn bytes_of(t: Option<Vec<u8>>) -> Option<Seq<u8>> {
    match t {
        Some(v) => Some(v@),
        None => None,
    }
}

/// The values of a list of `@param` tags.
pub open spec fn params_of(list: Seq<ParamTag>) -> Seq<(Seq<u8>, TypeExpr)> {
    Seq::new(list.len(), |i: int| (list[i].name@, list[i].type_expr@))
}

/// The values of a list of `@throws` tags.
pub open spec fn throws_of(list: Seq<ThrowsTag>) -> Seq<(Seq<u8>, Option<Seq<u8>>)> {
    Seq::new(list.len(), |i: int| (list[i].exception_type@, bytes_of(list[i].description)))
}

impl View for PhpDocComment {
    type V = Doc;

    open spec fn view(&self) -> Doc {
        Doc {
            params: params_of(self.params@),
            return_type: match self.return_tag {
                Some(tag) => Some(tag.type_expr@),
                None => None,
            },
            var: match self.var_tag {
                Some(tag) => Some((bytes_of(tag.name), tag.type_expr@)),
                None => None,
            },
            throws: throws_of(self.throws@),
        }
    }
}

impl Default for PhpDocComment {
    /// A documentation comment without tags.
    fn default() -> (doc: Self)
        ensures
            doc@ == (Doc {
                params: Seq::empty(),
                return_type: None,
                var: None,
                throws: Seq::empty(),
            }),
            doc.properties@.len() == 0,
            doc.methods@.len() == 0,
    {
        let doc = PhpDocComment {
            params: Vec::new(),
            return_tag: None,
            var_tag: None,
            throws: Vec::new(),
            properties: Vec::new(),
            methods: Vec::new(),
        };
        assert(doc@.params =~= Seq::empty());
        assert(doc@.throws =~= Seq::empty());
        doc
    }
}

/// Brackets that open a nested part of a parameter list.
pub open spec fn is_opener(b: u8) -> bool {
    b == 123 || b == 60 || b == 40 || b == 91
}

/// Brackets that close a nested part of a parameter list.
pub open spec fn is_closer(b: u8) -> bool {
    b == 125 || b == 62 || b == 41 || b == 93
}

/// `acc` with the piece `piece` behind it, trimmed, unless it is blank.
pub open spec fn flush(acc: Seq<Seq<u8>>, piece: Seq<u8>) -> Seq<Seq<u8>> {
    if trim(piece).len() == 0 {
        acc
    } else {
        acc.push(trim(piece))
    }
}

/// The parameters of `s` from `pos` on, when `acc` holds the parameters in
/// front of `start`, the current parameter starts at `start`, and `depth`
/// brackets are open at `pos`. Only a comma outside all brackets ends a
/// parameter.
pub open spec fn params_from(
    s: Seq<u8>,
    pos: int,
    start: int,
    depth: int,
    acc: Seq<Seq<u8>>,
) -> Seq<Seq<u8>>
    decreases s.len() - pos,
{
    if pos < 0 || pos >= s.len() {
        flush(acc, s.subrange(start, s.len() as int))
    } else if is_opener(s[pos]) {
        params_from(s, pos + 1, start, depth + 1, acc)
    } else if is_closer(s[pos]) {
        params_from(s, pos + 1, start, depth - 1, acc)
    } else if s[pos] == 44 && depth == 0 {
        params_from(s, pos + 1, pos + 1, 0, flush(acc, s.subrange(start, pos)))
    } else {
        params_from(s, pos + 1, start, depth, acc)
    }
}

/// The comma-separated parameters of `s`, each trimmed, blank ones left out.
/// Commas inside brackets do not separate.
pub open spec fn split_params_of(s: Seq<u8>) -> Seq<Seq<u8>> {
    params_from(s, 0, 0, 0, Seq::empty())
}

/// The base and the parameter list of a generic type: what stands in front
/// of the first `<`, and what stands between it and the last `>`.
pub open spec fn generic_parts(t: Seq<u8>) -> Option<(Seq<u8>, Seq<u8>)> {
    let open = index_from(t, 60, 0);
    match rfind_byte(t, 62) {
        Some(close) => if open < t.len() && open < close {
            Some((t.subrange(0, open), t.subrange(open + 1, close)))
        } else {
            None
        },
        None => None,
    }
}

/// What `parse` makes of every one of `parts`, if it makes something of each.
pub open spec fn parse_each(parts: Seq<Seq<u8>>, parse: spec_fn(Seq<u8>) -> Option<TypeExpr>) -> Option<
    Seq<TypeExpr>,
> {
    if forall|i: int| 0 <= i < parts.len() ==> (#[trigger] parse(parts[i])).is_some() {
        Some(Seq::new(parts.len(), |i: int| parse(parts[i]).unwrap()))
    } else {
        None
    }
}

/// The field that `piece` declares: the name in front of the first colon,
/// and the type behind it.
pub open spec fn field_of(piece: Seq<u8>, parse: spec_fn(Seq<u8>) -> Option<TypeExpr>) -> Option<
    (Seq<u8>, TypeExpr),
> {
    let colon = index_from(piece, 58, 0);
    if colon >= piece.len() {
        None
    } else {
        match parse(piece.subrange(colon + 1, piece.len() as int)) {
            Some(t) => Some((trim(piece.subrange(0, colon)), t)),
            None => None,
        }
    }
}

/// The fields that `pieces` declare, if each of them declares one.
pub open spec fn parse_fields(
    pieces: Seq<Seq<u8>>,
    parse: spec_fn(Seq<u8>) -> Option<TypeExpr>,
) -> Option<Seq<(Seq<u8>, TypeExpr)>> {
    if forall|i: int| 0 <= i < pieces.len() ==> (#[trigger] field_of(pieces[i], parse)).is_some() {
        Some(Seq::new(pieces.len(), |i: int| field_of(pieces[i], parse).unwrap()))
    } else {
        None
    }
}

/// The type that a plain name stands for.
pub open spec fn named_type(t: Seq<u8>) -> TypeExpr {
    if t == "mixed".spec_bytes() {
        TypeExpr::Mixed
    } else if t == "void".spec_bytes() {
        TypeExpr::Void
    } else if t == "never".spec_bytes() {
        TypeExpr::Never
    } else {
        TypeExpr::Simple(t)
    }
}

/// The parser for the parts of a type expression of `limit` bytes. Every
/// part of an expression is shorter than the expression, which is what
/// makes the grammar well founded.
pub open spec fn part_parser(limit: nat) -> spec_fn(Seq<u8>) -> Option<TypeExpr>
    decreases limit, 0nat,
{
    |p: Seq<u8>|
        if p.len() < limit {
            parse_type(p)
        } else {
            None
        }
}

/// The type expression that `s` denotes. With white space around it
/// ignored:
///
/// - `?T` is the nullable form of `T`;
/// - text with a `|` in it is the union of the pieces between the bars;
/// - `T[]` is the array of `T`;
/// - `array{name: T, ...}` is a shaped array;
/// - `Base<P, ...>` is a generic type, if every parameter denotes a type;
/// - `mixed`, `void` and `never` are themselves, and any other text is a
///   simple type of that name.
///
/// A form whose part denotes nothing denotes nothing; only the generic form
/// then falls back to a plain name.
pub open spec fn parse_type(s: Seq<u8>) -> Option<TypeExpr>
    decreases s.len(), 1nat,
    via parse_type_terminates
{
    let t = trim(s);
    let n = t.len() as int;
    if n > 0 && t[0] == 63 {
        match parse_type(t.drop_first()) {
            Some(inner) => Some(TypeExpr::Nullable(Box::new(inner))),
            None => None,
        }
    } else if index_from(t, 124, 0) < n {
        match parse_each(split(t, 124), part_parser(t.len())) {
            Some(members) => Some(TypeExpr::Union(members)),
            None => None,
        }
    } else if n >= 2 && t[n - 2] == 91 && t[n - 1] == 93 {
        match parse_type(t.subrange(0, n - 2)) {
            Some(inner) => Some(TypeExpr::Array(Box::new(inner))),
            None => None,
        }
    } else if "array{".spec_bytes().is_prefix_of(t) && n > "array{".spec_bytes().len() && t[n - 1]
        == 125 {
        match parse_fields(
            split_params_of(t.subrange("array{".spec_bytes().len() as int, n - 1)),
            part_parser(t.len()),
        ) {
            Some(fields) => Some(TypeExpr::ShapedArray(fields)),
            None => None,
        }
    } else {
        match generic_parts(t) {
            Some((base, list)) => match parse_each(split_params_of(list), part_parser(t.len())) {
                Some(params) => Some(TypeExpr::Generic { base, params }),
                None => Some(named_type(t)),
            },
            None => Some(named_type(t)),
        }
    }
}

#[via_fn]
proof fn parse_type_terminates(s: Seq<u8>) {
    lemma_trim_shorter(s);
}

/// Trimming never makes a text longer.
pub proof fn lemma_trim_shorter(s: Seq<u8>)
    ensures
        trim(s).len() <= s.len(),
{
    lemma_trim_start_is_suffix(s);
    lemma_trim_end_is_prefix(trim_start(s));
}

/// `s` without every leading copy of `prefix`.
pub open spec fn without_leading(s: Seq<u8>, prefix: Seq<u8>) -> Seq<u8>
    decreases s.len(),
{
    if prefix.len() > 0 && prefix.is_prefix_of(s) {
        without_leading(s.subrange(prefix.len() as int, s.len() as int), prefix)
    } else {
        s
    }
}

/// `s` without every trailing copy of `suffix`.
pub open spec fn without_trailing(s: Seq<u8>, suffix: Seq<u8>) -> Seq<u8>
    decreases s.len(),
{
    if suffix.len() > 0 && suffix.is_suffix_of(s) {
        without_trailing(s.subrange(0, s.len() - suffix.len()), suffix)
    } else {
        s
    }
}

/// The text of one line of a comment, without the comment's frame: the
/// opening `/**`, the stars at the start of a line, and the closing `*/`.
pub open spec fn clean_line(line: Seq<u8>) -> Seq<u8> {
    trim(
        without_trailing(
            strip_leading(without_leading(trim(line), "/**".spec_bytes()), 42),
            "*/".spec_bytes(),
        ),
    )
}

/// The index of the first white space in `s` at or after `from`, or the
/// length of `s`.
pub open spec fn word_end(s: Seq<u8>, from: int) -> int
    decreases s.len() - from,
{
    if from < 0 || from >= s.len() {
        s.len() as int
    } else if space_at(s, from) > 0 {
        from
    } else {
        word_end(s, from + 1)
    }
}

/// The first word of `s`: what stands in front of the first white space.
pub open spec fn first_word(s: Seq<u8>) -> Seq<u8> {
    s.subrange(0, word_end(s, 0))
}

/// What follows the white-space character behind the first word of `s`, if
/// there is one.
pub open spec fn after_word(s: Seq<u8>) -> Option<Seq<u8>> {
    if word_end(s, 0) < s.len() {
        Some(s.subrange(word_end(s, 0) + space_at(s, word_end(s, 0)), s.len() as int))
    } else {
        None
    }
}

/// What a `@param` tag with the text `value` declares: the type in front of
/// the first `$`, and the name behind it.
pub open spec fn param_tag(value: Seq<u8>) -> Option<(Seq<u8>, TypeExpr)> {
    let v = trim(value);
    let dollar = index_from(v, 36, 0);
    if dollar >= v.len() {
        None
    } else {
        match parse_type(v.subrange(0, dollar)) {
            Some(t) => Some((strip_leading(first_word(v.subrange(dollar, v.len() as int)), 36), t)),
            None => None,
        }
    }
}

/// What a `@return` tag with the text `value` declares.
pub open spec fn return_tag(value: Seq<u8>) -> Option<TypeExpr> {
    parse_type(first_word(value))
}

/// What a `@var` tag with the text `value` declares: the type in front of
/// the first `$` and the name behind it, or the whole text as a type.
pub open spec fn var_tag(value: Seq<u8>) -> Option<(Option<Seq<u8>>, TypeExpr)> {
    let v = trim(value);
    let dollar = index_from(v, 36, 0);
    if dollar >= v.len() {
        match parse_type(v) {
            Some(t) => Some((None, t)),
            None => None,
        }
    } else {
        match parse_type(v.subrange(0, dollar)) {
            Some(t) => Some(
                (Some(strip_leading(first_word(v.subrange(dollar, v.len() as int)), 36)), t),
            ),
            None => None,
        }
    }
}

/// What a `@throws` tag with the text `value` declares.
pub open spec fn throws_tag(value: Seq<u8>) -> (Seq<u8>, Option<Seq<u8>>) {
    (first_word(value), after_word(value))
}

/// The comment after the tag with the text `content`, the `@` not included.
pub open spec fn with_tag(doc: Doc, content: Seq<u8>) -> Doc {
    let name = first_word(content);
    let value = match after_word(content) {
        Some(rest) => trim(rest),
        None => Seq::empty(),
    };
    if name == "param".spec_bytes() || name == "phpstan-param".spec_bytes() {
        match param_tag(value) {
            Some(tag) => Doc { params: doc.params.push(tag), ..doc },
            None => doc,
        }
    } else if name == "return".spec_bytes() || name == "phpstan-return".spec_bytes() {
        match return_tag(value) {
            Some(t) => Doc { return_type: Some(t), ..doc },
            None => doc,
        }
    } else if name == "var".spec_bytes() || name == "phpstan-var".spec_bytes() {
        match var_tag(value) {
            Some(tag) => Doc { var: Some(tag), ..doc },
            None => doc,
        }
    } else if name == "throws".spec_bytes() {
        Doc { throws: doc.throws.push(throws_tag(value)), ..doc }
    } else {
        doc
    }
}

/// The comment after one of its lines.
pub open spec fn with_doc_line(doc: Doc, line: Seq<u8>) -> Doc {
    let text = clean_line(line);
    if text.len() > 0 && text[0] == 64 {
        with_tag(doc, text.drop_first())
    } else {
        doc
    }
}

/// The comment after a run of its lines.
pub open spec fn with_doc_lines(doc: Doc, ls: Seq<Seq<u8>>) -> Doc
    decreases ls.len(),
{
    if ls.len() == 0 {
        doc
    } else {
        with_doc_lines(with_doc_line(doc, ls[0]), ls.drop_first())
    }
}

/// A comment without tags.
pub open spec fn empty_doc() -> Doc {
    Doc { params: Seq::empty(), return_type: None, var: None, throws: Seq::empty() }
}

/// What the documentation comment `comment` declares. Text that does not
/// start with `/**` is no documentation comment.
pub open spec fn parse_doc(comment: Seq<u8>) -> Option<Doc> {
    if "/**".spec_bytes().is_prefix_of(trim_start(comment)) {
        Some(with_doc_lines(empty_doc(), lines(comment)))
    } else {
        None
    }
}

fn is_opener_byte(b: u8) -> (r: bool)
    ensures
        r == is_opener(b),
{
    b == 123 || b == 60 || b == 40 || b == 91
}

fn is_closer_byte(b: u8) -> (r: bool)
    ensures
        r == is_closer(b),
{
    b == 125 || b == 62 || b == 41 || b == 93
}

fn flush_piece(acc: &mut Vec<Vec<u8>>, piece: &[u8])
    ensures
        rows(final(acc)@) == flush(rows(old(acc)@), piece@),
{
    let text = trim_bytes(piece);
    if text.len() > 0 {
        let owned = to_vec(text);
        proof {
            lemma_rows_push(acc@, owned);
        }
        acc.push(owned);
    }
}

fn word_end_at(s: &[u8], from: usize) -> (r: usize)
    requires
        from <= s.len(),
    ensures
        r == word_end(s@, from as int),
        from <= r <= s.len(),
{
    let mut i: usize = from;
    while i < s.len() && space_len_at(s, i) == 0
        invariant
            from <= i <= s.len(),
            word_end(s@, from as int) == word_end(s@, i as int),
        decreases s.len() - i,
    {
        i += 1;
    }
    i
}

fn first_word_of<'a>(s: &'a [u8]) -> (r: &'a [u8])
    ensures
        r@ == first_word(s@),
{
    let end = word_end_at(s, 0);
    slice_subrange(s, 0, end)
}

fn after_word_of<'a>(s: &'a [u8]) -> (r: Option<&'a [u8]>)
    ensures
        match r {
            Some(rest) => after_word(s@) == Some(rest@),
            None => after_word(s@).is_none(),
        },
{
    let end = word_end_at(s, 0);
    if end < s.len() {
        let skip = space_len_at(s, end);
        Some(slice_subrange(s, end + skip, s.len()))
    } else {
        None
    }
}

fn strip_leading_text<'a>(s: &'a [u8], prefix: &[u8]) -> (r: &'a [u8])
    ensures
        r@ == without_leading(s@, prefix@),
{
    let mut i: usize = 0;
    proof {
        assert(s@.subrange(0, s@.len() as int) =~= s@);
    }
    while prefix.len() > 0 && starts_with(slice_subrange(s, i, s.len()), prefix)
        invariant
            i <= s.len(),
            without_leading(s@, prefix@) == without_leading(
                s@.subrange(i as int, s@.len() as int),
                prefix@,
            ),
        decreases s.len() - i,
    {
        proof {
            let cur = s@.subrange(i as int, s@.len() as int);
            assert(cur.subrange(prefix@.len() as int, cur.len() as int) =~= s@.subrange(
                i + prefix@.len(),
                s@.len() as int,
            ));
        }
        i += prefix.len();
    }
    slice_subrange(s, i, s.len())
}

fn strip_trailing_text<'a>(s: &'a [u8], suffix: &[u8]) -> (r: &'a [u8])
    ensures
        r@ == without_trailing(s@, suffix@),
{
    let mut j: usize = s.len();
    proof {
        assert(s@.subrange(0, s@.len() as int) =~= s@);
    }
    while suffix.len() > 0 && ends_with(slice_subrange(s, 0, j), suffix)
        invariant
            j <= s.len(),
            without_trailing(s@, suffix@) == without_trailing(s@.subrange(0, j as int), suffix@),
        decreases j,
    {
        proof {
            let cur = s@.subrange(0, j as int);
            assert(cur.subrange(0, cur.len() - suffix@.len()) =~= s@.subrange(
                0,
                j - suffix@.len(),
            ));
        }
        j -= suffix.len();
    }
    slice_subrange(s, 0, j)
}

fn clean_line_of<'a>(line: &'a [u8]) -> (r: &'a [u8])
    ensures
        r@ == clean_line(line@),
{
    let a = strip_leading_text(trim_bytes(line), "/**".as_bytes());
    let b = strip_leading_byte(a, 42);
    let c = strip_trailing_text(b, "*/".as_bytes());
    trim_bytes(c)
}

fn named_type_of(t: &[u8]) -> (r: TypeExpression)
    ensures
        r@ == named_type(t@),
{
    if bytes_eq(t, "mixed".as_bytes()) {
        TypeExpression::Mixed
    } else if bytes_eq(t, "void".as_bytes()) {
        TypeExpression::Void
    } else if bytes_eq(t, "never".as_bytes()) {
        TypeExpression::Never
    } else {
        TypeExpression::Simple(to_vec(t))
    }
}

/// The parser of documentation comments.
pub struct PhpDocParser;

impl PhpDocParser {
    /// Split comma-separated parameters while respecting nesting:
    /// `int, array{name: string, age: int}` gives `int` and
    /// `array{name: string, age: int}`.
    pub fn split_params(params_str: &str) -> (r: Vec<Vec<u8>>)
        ensures
            rows(r@) == split_params_of(params_str.spec_bytes()),
    {
        Self::split_param_bytes(params_str.as_bytes())
    }

    /// Split comma-separated parameters while respecting nesting.
    pub fn split_param_bytes(s: &[u8]) -> (r: Vec<Vec<u8>>)
        ensures
            rows(r@) == split_params_of(s@),
    {
        let mut acc: Vec<Vec<u8>> = Vec::new();
        let mut start: usize = 0;
        let mut pos: usize = 0;
        let mut depth: i128 = 0;
        proof {
            assert(rows(acc@) =~= Seq::empty());
        }
        while pos < s.len()
            invariant
                start <= pos <= s.len(),
                -pos <= depth <= pos,
                split_params_of(s@) == params_from(
                    s@,
                    pos as int,
                    start as int,
                    depth as int,
                    rows(acc@),
                ),
            decreases s.len() - pos,
        {
            let b = s[pos];
            if is_opener_byte(b) {
                depth += 1;
            } else if is_closer_byte(b) {
                depth -= 1;
            } else if b == 44 && depth == 0 {
                flush_piece(&mut acc, slice_subrange(s, start, pos));
                start = pos + 1;
            }
            pos += 1;
        }
        flush_piece(&mut acc, slice_subrange(s, start, s.len()));
        acc
    }

    /// Split a generic type into base and parameters: `array<string, int>`
    /// gives `array` and `string, int`.
    pub fn split_generic<'a>(t: &'a [u8]) -> (r: Option<(&'a [u8], &'a [u8])>)
        ensures
            match r {
                Some(parts) => generic_parts(t@) == Some((parts.0@, parts.1@)),
                None => generic_parts(t@).is_none(),
            },
    {
        let open = index_of_from(t, 60, 0);
        match rfind_byte_in(t, 62) {
            Some(close) => {
                if open < t.len() && open < close {
                    Some((slice_subrange(t, 0, open), slice_subrange(t, open + 1, close)))
                } else {
                    None
                }
            },
            None => None,
        }
    }

    fn parse_part(p: &[u8], limit: usize) -> (r: Option<TypeExpression>)
        ensures
            match r {
                Some(e) => part_parser(limit as nat)(p@) == Some(e@),
                None => part_parser(limit as nat)(p@).is_none(),
            },
        decreases limit, 0nat,
    {
        if p.len() < limit {
            Self::parse_type_bytes(p)
        } else {
            None
        }
    }

    #[verifier::loop_isolation(false)]
    fn parse_parts(parts: &Vec<Vec<u8>>, limit: usize) -> (r: Option<Vec<TypeExpression>>)
        ensures
            match r {
                Some(list) => parse_each(rows(parts@), part_parser(limit as nat)) == Some(
                    exprs(list@),
                ),
                None => parse_each(rows(parts@), part_parser(limit as nat)).is_none(),
            },
        decreases limit, 1nat,
    {
        let ghost parse = part_parser(limit as nat);
        let mut out: Vec<TypeExpression> = Vec::new();
        let mut i: usize = 0;
        while i < parts.len()
            invariant
                i <= parts.len(),
                out@.len() == i,
                forall|k: int| 0 <= k < i ==> parse(#[trigger] rows(parts@)[k]) == Some(out@[k]@),
            decreases parts.len() - i,
        {
            match Self::parse_part(parts[i].as_slice(), limit) {
                Some(e) => {
                    out.push(e);
                },
                None => {
                    assert(parse(rows(parts@)[i as int]).is_none());
                    return None;
                },
            }
            i += 1;
        }
        proof {
            let all = rows(parts@);
            assert forall|k: int| 0 <= k < all.len() implies (#[trigger] parse(all[k])).is_some() by {
                assert(parse(rows(parts@)[k]) == Some(out@[k]@));
            }
            assert(Seq::new(all.len(), |k: int| parse(all[k]).unwrap()) =~= exprs(out@));
        }
        Some(out)
    }

    fn parse_field(piece: &[u8], limit: usize) -> (r: Option<(Vec<u8>, TypeExpression)>)
        ensures
            match r {
                Some(f) => field_of(piece@, part_parser(limit as nat)) == Some((f.0@, f.1@)),
                None => field_of(piece@, part_parser(limit as nat)).is_none(),
            },
        decreases limit, 1nat,
    {
        let colon = index_of_from(piece, 58, 0);
        if colon >= piece.len() {
            return None;
        }
        match Self::parse_part(slice_subrange(piece, colon + 1, piece.len()), limit) {
            Some(t) => Some((to_vec(trim_bytes(slice_subrange(piece, 0, colon))), t)),
            None => None,
        }
    }

    /// Parse shaped array fields: `name: string, age: int` gives the field
    /// `name` of type `string` and the field `age` of type `int`.
    #[verifier::loop_isolation(false)]
    fn parse_shaped_array_fields(fields_str: &[u8], limit: usize) -> (r: Option<
        Vec<(Vec<u8>, TypeExpression)>,
    >)
        ensures
            match r {
                Some(list) => parse_fields(split_params_of(fields_str@), part_parser(limit as nat))
                    == Some(field_exprs(list@)),
                None => parse_fields(
                    split_params_of(fields_str@),
                    part_parser(limit as nat),
                ).is_none(),
            },
        decreases limit, 2nat,
    {
        let pieces = Self::split_param_bytes(fields_str);
        let ghost parse = part_parser(limit as nat);
        let mut out: Vec<(Vec<u8>, TypeExpression)> = Vec::new();
        let mut i: usize = 0;
        while i < pieces.len()
            invariant
                i <= pieces.len(),
                out@.len() == i,
                forall|k: int|
                    0 <= k < i ==> field_of(#[trigger] rows(pieces@)[k], parse) == Some(
                        (out@[k].0@, out@[k].1@),
                    ),
            decreases pieces.len() - i,
        {
            match Self::parse_field(pieces[i].as_slice(), limit) {
                Some(f) => {
                    out.push(f);
                },
                None => {
                    assert(field_of(rows(pieces@)[i as int], parse).is_none());
                    return None;
                },
            }
            i += 1;
        }
        proof {
            let all = rows(pieces@);
            assert forall|k: int| 0 <= k < all.len() implies (#[trigger] field_of(
                all[k],
                parse,
            )).is_some() by {
                assert(field_of(rows(pieces@)[k], parse) == Some((out@[k].0@, out@[k].1@)));
            }
            assert(Seq::new(all.len(), |k: int| field_of(all[k], parse).unwrap()) =~= field_exprs(
                out@,
            ));
        }
        Some(out)
    }

    /// Parse a type expression given as bytes.
    pub fn parse_type_bytes(s: &[u8]) -> (r: Option<TypeExpression>)
        ensures
            match r {
                Some(e) => parse_type(s@) == Some(e@),
                None => parse_type(s@).is_none(),
            },
        decreases s.len(), 3nat,
    {
        let t = trim_bytes(s);
        let n = t.len();
        proof {
            lemma_trim_shorter(s@);
        }
        if n > 0 && t[0] == 63 {
            proof {
                assert(t@.drop_first() =~= t@.subrange(1, n as int));
            }
            return match Self::parse_type_bytes(slice_subrange(t, 1, n)) {
                Some(inner) => Some(TypeExpression::Nullable(Box::new(inner))),
                None => None,
            };
        }
        if index_of_from(t, 124, 0) < n {
            let parts = split_bytes(t, 124);
            return match Self::parse_parts(&parts, n) {
                Some(members) => {
                    proof {
                        TypeExpression::lemma_union_model(members);
                    }
                    Some(TypeExpression::Union(members))
                },
                None => None,
            };
        }
        if n >= 2 && t[n - 2] == 91 && t[n - 1] == 93 {
            return match Self::parse_type_bytes(slice_subrange(t, 0, n - 2)) {
                Some(inner) => Some(TypeExpression::Array(Box::new(inner))),
                None => None,
            };
        }
        let shaped = "array{".as_bytes();
        if starts_with(t, shaped) && n > shaped.len() && t[n - 1] == 125 {
            let inner = slice_subrange(t, shaped.len(), n - 1);
            return match Self::parse_shaped_array_fields(inner, n) {
                Some(fields) => {
                    proof {
                        TypeExpression::lemma_shaped_model(fields);
                    }
                    Some(TypeExpression::ShapedArray(fields))
                },
                None => None,
            };
        }
        match Self::split_generic(t) {
            Some((base, list)) => {
                let pieces = Self::split_param_bytes(list);
                match Self::parse_parts(&pieces, n) {
                    Some(params) => {
                        let base = to_vec(base);
                        proof {
                            TypeExpression::lemma_generic_model(base, params);
                        }
                        return Some(TypeExpression::Generic { base, params });
                    },
                    None => {},
                }
            },
            None => {},
        }
        Some(named_type_of(t))
    }

    /// Parse a type expression. Supports `int`, `string`, `int[]`,
    /// `array<string, int>`, `int|string`, `?int`, and so on.
    pub fn parse_type_expression(type_str: &str) -> (r: Option<TypeExpression>)
        ensures
            match r {
                Some(e) => parse_type(type_str.spec_bytes()) == Some(e@),
                None => parse_type(type_str.spec_bytes()).is_none(),
            },
    {
        Self::parse_type_bytes(type_str.as_bytes())
    }

    /// Parse a `@param` tag. Format: `Type $name [description]`.
    pub fn parse_param_tag(value: &str) -> (r: Option<ParamTag>)
        ensures
            match r {
                Some(tag) => param_tag(value.spec_bytes()) == Some((tag.name@, tag.type_expr@)),
                None => param_tag(value.spec_bytes()).is_none(),
            },
    {
        Self::param_tag_of(value.as_bytes())
    }

    fn param_tag_of(value: &[u8]) -> (r: Option<ParamTag>)
        ensures
            match r {
                Some(tag) => param_tag(value@) == Some((tag.name@, tag.type_expr@)),
                None => param_tag(value@).is_none(),
            },
    {
        let v = trim_bytes(value);
        let dollar = index_of_from(v, 36, 0);
        if dollar >= v.len() {
            return None;
        }
        match Self::parse_type_bytes(slice_subrange(v, 0, dollar)) {
            Some(type_expr) => {
                let word = first_word_of(slice_subrange(v, dollar, v.len()));
                Some(ParamTag { name: to_vec(strip_leading_byte(word, 36)), type_expr })
            },
            None => None,
        }
    }

    /// Parse a `@return` tag. Format: `Type [description]`.
    fn parse_return_tag(value: &[u8]) -> (r: Option<ReturnTag>)
        ensures
            match r {
                Some(tag) => return_tag(value@) == Some(tag.type_expr@),
                None => return_tag(value@).is_none(),
            },
    {
        match Self::parse_type_bytes(first_word_of(value)) {
            Some(type_expr) => Some(ReturnTag { type_expr }),
            None => None,
        }
    }

    /// Parse a `@var` tag. Format: `Type [$name] [description]`.
    fn parse_var_tag(value: &[u8]) -> (r: Option<VarTag>)
        ensures
            match r {
                Some(tag) => var_tag(value@) == Some((bytes_of(tag.name), tag.type_expr@)),
                None => var_tag(value@).is_none(),
            },
    {
        let v = trim_bytes(value);
        let dollar = index_of_from(v, 36, 0);
        if dollar >= v.len() {
            return match Self::parse_type_bytes(v) {
                Some(type_expr) => Some(VarTag { name: None, type_expr }),
                None => None,
            };
        }
        match Self::parse_type_bytes(slice_subrange(v, 0, dollar)) {
            Some(type_expr) => {
                let word = first_word_of(slice_subrange(v, dollar, v.len()));
                Some(VarTag { name: Some(to_vec(strip_leading_byte(word, 36))), type_expr })
            },
            None => None,
        }
    }

    /// Parse a `@throws` tag. Format: `ExceptionType [description]`.
    fn parse_throws_tag(value: &[u8]) -> (r: ThrowsTag)
        ensures
            (r.exception_type@, bytes_of(r.description)) == throws_tag(value@),
    {
        let description = match after_word_of(value) {
            Some(rest) => Some(to_vec(rest)),
            None => None,
        };
        ThrowsTag { exception_type: to_vec(first_word_of(value)), description }
    }

    /// Parse a single tag line, the `@` not included.
    fn parse_tag(tag_content: &[u8], doc: &mut PhpDocComment)
        ensures
            final(doc)@ == with_tag(old(doc)@, tag_content@),
            final(doc).properties == old(doc).properties,
            final(doc).methods == old(doc).methods,
    {
        let name = first_word_of(tag_content);
        let empty: Vec<u8> = Vec::new();
        let value = match after_word_of(tag_content) {
            Some(rest) => trim_bytes(rest),
            None => {
                assert(empty@ =~= Seq::<u8>::empty());
                empty.as_slice()
            },
        };
        if bytes_eq(name, "param".as_bytes()) || bytes_eq(name, "phpstan-param".as_bytes()) {
            match Self::param_tag_of(value) {
                Some(tag) => {
                    let ghost before = doc.params@;
                    doc.params.push(tag);
                    assert(params_of(doc.params@) =~= params_of(before).push(
                        (tag.name@, tag.type_expr@),
                    ));
                },
                None => {},
            }
        } else if bytes_eq(name, "return".as_bytes()) || bytes_eq(
            name,
            "phpstan-return".as_bytes(),
        ) {
            match Self::parse_return_tag(value) {
                Some(tag) => {
                    doc.return_tag = Some(tag);
                },
                None => {},
            }
        } else if bytes_eq(name, "var".as_bytes()) || bytes_eq(name, "phpstan-var".as_bytes()) {
            match Self::parse_var_tag(value) {
                Some(tag) => {
                    doc.var_tag = Some(tag);
                },
                None => {},
            }
        } else if bytes_eq(name, "throws".as_bytes()) {
            let tag = Self::parse_throws_tag(value);
            let ghost before = doc.throws@;
            doc.throws.push(tag);
            assert(throws_of(doc.throws@) =~= throws_of(before).push(
                (tag.exception_type@, bytes_of(tag.description)),
            ));
        }
    }

    /// Parse a PHPDoc comment.
    pub fn parse(comment: &str) -> (r: Option<PhpDocComment>)
        ensures
            match r {
                Some(doc) => {
                    &&& parse_doc(comment.spec_bytes()) == Some(doc@)
                    &&& doc.properties@.len() == 0
                    &&& doc.methods@.len() == 0
                },
                None => parse_doc(comment.spec_bytes()).is_none(),
            },
    {
        Self::parse_bytes(comment.as_bytes())
    }

    /// Parse a PHPDoc comment given as bytes.
    #[verifier::loop_isolation(false)]
    pub fn parse_bytes(comment: &[u8]) -> (r: Option<PhpDocComment>)
        ensures
            match r {
                Some(doc) => {
                    &&& parse_doc(comment@) == Some(doc@)
                    &&& doc.properties@.len() == 0
                    &&& doc.methods@.len() == 0
                },
                None => parse_doc(comment@).is_none(),
            },
    {
        if !starts_with(trim_start_bytes(comment), "/**".as_bytes()) {
            return None;
        }
        let mut doc = PhpDocComment {
            params: Vec::new(),
            return_tag: None,
            var_tag: None,
            throws: Vec::new(),
            properties: Vec::new(),
            methods: Vec::new(),
        };
        proof {
            assert(doc@.params =~= Seq::empty());
            assert(doc@.throws =~= Seq::empty());
        }
        let mut pos: usize = 0;
        while pos < comment.len()
            invariant
                pos <= comment.len(),
                doc.properties@.len() == 0,
                doc.methods@.len() == 0,
                with_doc_lines(empty_doc(), lines(comment@)) == with_doc_lines(
                    doc@,
                    lines_from(comment@, pos as int),
                ),
            decreases comment.len() - pos,
        {
            let line = line_text_at(comment, pos);
            let stop = line_break_at(comment, pos);
            let ghost before = doc@;
            let text = clean_line_of(line);
            if text.len() > 0 && text[0] == 64 {
                proof {
                    assert(text@.drop_first() =~= text@.subrange(1, text@.len() as int));
                }
                Self::parse_tag(slice_subrange(text, 1, text.len()), &mut doc);
            }
            proof {
                lemma_line_break_bounds(comment@, pos as int);
                let ls = lines_from(comment@, pos as int);
                assert(ls[0] == line@);
                assert(ls.drop_first() =~= lines_from(comment@, stop + 1));
                assert(with_doc_lines(before, ls) == with_doc_lines(
                    doc@,
                    lines_from(comment@, stop + 1),
                ));
            }
            if stop >= comment.len() {
                assert(lines_from(comment@, stop + 1) =~= Seq::empty());
                return Some(doc);
            }
            pos = stop + 1;
        }
        Some(doc)
    }
}

} // verus!
