//! The reader: text becomes trees of atoms and lists.

use vstd::prelude::*;
use vstd::string::*;
use crate::error::CompileError;
use crate::seqs::{empty_deep, push_deep};

verus! {

/// A tree of the concrete syntax.
#[derive(Debug, PartialEq)]
pub enum Sexp {
    /// A maximal run of characters that are neither blank nor parentheses.
    Atom(String),
    /// The forms between a pair of parentheses.
    List(Vec<Sexp>),
}

/// The view of a [`Sexp`].
pub enum SexpView {
    Atom(Seq<char>),
    List(Seq<SexpView>),
}

/// The views of the elements of a vector of trees.
pub open spec fn sexp_views(v: &Vec<Sexp>) -> Seq<SexpView>
    decreases v, 1nat,
{
    Seq::new(
        v.len() as nat,
        |i: int|
            if 0 <= i < v.len() {
                sexp_view(&v[i])
            } else {
                SexpView::Atom(Seq::empty())
            },
    )
}

/// The view of a tree, defined by recursion on it.
pub open spec fn sexp_view(x: &Sexp) -> SexpView
    decreases x, 0nat,
{
    match x {
        Sexp::Atom(text) => SexpView::Atom(text@),
        Sexp::List(items) => SexpView::List(sexp_views(items)),
    }
}

impl DeepView for Sexp {
    type V = SexpView;

    open spec fn deep_view(&self) -> SexpView {
        sexp_view(self)
    }
}

impl View for Sexp {
    type V = SexpView;

    open spec fn view(&self) -> SexpView {
        sexp_view(self)
    }
}

/// The view of a tree, written over the deep view of its items.
pub proof fn lemma_sexp_view(x: &Sexp)
    ensures
        x matches Sexp::Atom(text) ==> x@ == SexpView::Atom(text@),
        x matches Sexp::List(items) ==> x@ == SexpView::List(items.deep_view()),
{
    match x {
        Sexp::List(items) => {
            assert(sexp_views(items) =~= items.deep_view());
        },
        _ => {},
    }
}

/// Whether a character is blank.
pub open spec fn is_space(c: char) -> bool {
    c == ' ' || c == '\n' || c == '\t' || c == '\r'
}

/// Whether a character ends an atom.
pub open spec fn is_delimiter(c: char) -> bool {
    is_space(c) || c == '(' || c == ')'
}

/// The first position from `i` on that holds no blank.
pub open spec fn skip_spaces(s: Seq<char>, i: int) -> int
    decreases s.len() - i,
{
    if 0 <= i < s.len() && is_space(s[i]) {
        skip_spaces(s, i + 1)
    } else {
        i
    }
}

/// The first position from `i` on that holds a delimiter.
pub open spec fn atom_end(s: Seq<char>, i: int) -> int
    decreases s.len() - i,
{
    if 0 <= i < s.len() && !is_delimiter(s[i]) {
        atom_end(s, i + 1)
    } else {
        i
    }
}

/// The form that starts at or after `i`, blanks skipped, and the position behind it.
pub open spec fn read_form_spec(s: Seq<char>, i: int) -> Result<(SexpView, int), CompileError>
    decreases s.len() - i, 1nat,
{
    let j = skip_spaces(s, i);
    if i < 0 || j < i || j >= s.len() {
        Err(CompileError::UnexpectedEnd)
    } else if s[j] == '(' {
        match read_items_spec(s, j + 1) {
            Err(err) => Err(err),
            Ok((items, end)) => Ok((SexpView::List(items), end)),
        }
    } else if s[j] == ')' {
        Err(CompileError::UnbalancedParen)
    } else {
        Ok((SexpView::Atom(s.subrange(j, atom_end(s, j))), atom_end(s, j)))
    }
}

/// The forms from `i` up to the closing parenthesis of the list they stand in, and the
/// position behind that parenthesis.
pub open spec fn read_items_spec(s: Seq<char>, i: int) -> Result<
    (Seq<SexpView>, int),
    CompileError,
>
    decreases s.len() - i, 2nat,
{
    let j = skip_spaces(s, i);
    if i < 0 || j < i || j >= s.len() {
        Err(CompileError::UnexpectedEnd)
    } else if s[j] == ')' {
        Ok((Seq::empty(), j + 1))
    } else {
        match read_form_spec(s, j) {
            Err(err) => Err(err),
            Ok((first, next)) => {
                if next <= j || next > s.len() {
                    Err(CompileError::UnexpectedEnd)
                } else {
                    match read_items_spec(s, next) {
                        Err(err) => Err(err),
                        Ok((rest, end)) => Ok((seq![first] + rest, end)),
                    }
                }
            },
        }
    }
}

/// The forms from `i` to the end of the text.
pub open spec fn read_all_spec(s: Seq<char>, i: int) -> Result<Seq<SexpView>, CompileError>
    decreases s.len() - i,
{
    let j = skip_spaces(s, i);
    if i < 0 || j < i || j >= s.len() {
        Ok(Seq::empty())
    } else {
        match read_form_spec(s, j) {
            Err(err) => Err(err),
            Ok((first, next)) => {
                if next <= j || next > s.len() {
                    Err(CompileError::UnexpectedEnd)
                } else {
                    match read_all_spec(s, next) {
                        Err(err) => Err(err),
                        Ok(rest) => Ok(seq![first] + rest),
                    }
                }
            },
        }
    }
}

/// Skipping blanks moves forward, and not past the end.
pub proof fn lemma_skip_spaces(s: Seq<char>, i: int)
    requires
        0 <= i <= s.len(),
    ensures
        i <= skip_spaces(s, i) <= s.len(),
        skip_spaces(s, i) < s.len() ==> !is_space(s[skip_spaces(s, i)]),
        skip_spaces(s, skip_spaces(s, i)) == skip_spaces(s, i),
    decreases s.len() - i,
{
    if i < s.len() && is_space(s[i]) {
        lemma_skip_spaces(s, i + 1);
    }
}

/// An atom ends behind its start, and not past the end.
pub proof fn lemma_atom_end(s: Seq<char>, i: int)
    requires
        0 <= i <= s.len(),
    ensures
        i <= atom_end(s, i) <= s.len(),
        i < s.len() && !is_delimiter(s[i]) ==> i < atom_end(s, i),
    decreases s.len() - i,
{
    if i < s.len() && !is_delimiter(s[i]) {
        lemma_atom_end(s, i + 1);
    }
}

/// A form that was read ends behind its start, and not past the end.
pub proof fn lemma_read_form(s: Seq<char>, i: int)
    requires
        0 <= i <= s.len(),
    ensures
        read_form_spec(s, i) matches Ok((_, end)) ==> i < end <= s.len(),
    decreases s.len() - i, 1nat,
{
    lemma_skip_spaces(s, i);
    let j = skip_spaces(s, i);
    if j < s.len() {
        if s[j] == '(' {
            lemma_read_items(s, j + 1);
        } else if s[j] != ')' {
            lemma_atom_end(s, j);
        }
    }
}

/// The items of a list that was read end behind their start, and not past the end.
pub proof fn lemma_read_items(s: Seq<char>, i: int)
    requires
        0 <= i <= s.len(),
    ensures
        read_items_spec(s, i) matches Ok((_, end)) ==> i < end <= s.len(),
    decreases s.len() - i, 2nat,
{
    lemma_skip_spaces(s, i);
    let j = skip_spaces(s, i);
    if j < s.len() && s[j] != ')' {
        lemma_read_form(s, j);
        match read_form_spec(s, j) {
            Ok((_, next)) => {
                lemma_read_items(s, next);
            },
            Err(_) => {},
        }
    }
}

/// The characters of a text.
pub fn chars_of(source: &str) -> (chars: Vec<char>)
    ensures
        chars@ == source@,
{
    let n = source.unicode_len();
    let mut chars: Vec<char> = Vec::new();
    let mut i: usize = 0;
    while i < n
        invariant
            i <= n,
            n == source@.len(),
            chars@ == source@.take(i as int),
        decreases n - i,
    {
        chars.push(source.get_char(i));
        assert(chars@ =~= source@.take(i + 1));
        i = i + 1;
    }
    assert(chars@ =~= source@);
    chars
}

/// Whether a character is blank.
fn is_blank(c: char) -> (blank: bool)
    ensures
        blank == is_space(c),
{
    c == ' ' || c == '\n' || c == '\t' || c == '\r'
}

/// The first position from `i` on that holds no blank.
fn skip_blanks(chars: &Vec<char>, i: usize) -> (j: usize)
    requires
        i <= chars.len(),
    ensures
        j == skip_spaces(chars@, i as int),
        i <= j <= chars.len(),
{
    let mut j: usize = i;
    while j < chars.len() && is_blank(chars[j])
        invariant
            i <= j <= chars.len(),
            skip_spaces(chars@, i as int) == skip_spaces(chars@, j as int),
        decreases chars.len() - j,
    {
        j = j + 1;
    }
    j
}

/// The first position from `i` on that holds a delimiter.
fn find_atom_end(chars: &Vec<char>, i: usize) -> (j: usize)
    requires
        i <= chars.len(),
    ensures
        j == atom_end(chars@, i as int),
        i <= j <= chars.len(),
{
    let mut j: usize = i;
    while j < chars.len() && !is_blank(chars[j]) && chars[j] != '(' && chars[j] != ')'
        invariant
            i <= j <= chars.len(),
            atom_end(chars@, i as int) == atom_end(chars@, j as int),
        decreases chars.len() - j,
    {
        j = j + 1;
    }
    j
}

/// Reads the form that starts at or after `i`.
pub fn read_form(source: &str, chars: &Vec<char>, i: usize) -> (result: Result<
    (Sexp, usize),
    CompileError,
>)
    requires
        chars@ == source@,
        i <= chars.len(),
    ensures
        match result {
            Ok((form, end)) => read_form_spec(source@, i as int) == Ok::<_, CompileError>(
                (form@, end as int),
            ) && i < end <= chars.len(),
            Err(err) => read_form_spec(source@, i as int) == Err::<(SexpView, int), _>(err),
        },
    decreases chars.len() - i, 1nat,
{
    proof {
        lemma_read_form(source@, i as int);
    }
    let j = skip_blanks(chars, i);
    if j >= chars.len() {
        return Err(CompileError::UnexpectedEnd);
    }
    if chars[j] == '(' {
        let (items, end) = read_items(source, chars, j + 1)?;
        let list = Sexp::List(items);
        proof {
            lemma_sexp_view(&list);
        }
        Ok((list, end))
    } else if chars[j] == ')' {
        Err(CompileError::UnbalancedParen)
    } else {
        let end = find_atom_end(chars, j);
        let text = String::from_str(source.substring_char(j, end));
        Ok((Sexp::Atom(text), end))
    }
}

/// Reads the forms from `i` up to the closing parenthesis of their list.
pub fn read_items(source: &str, chars: &Vec<char>, i: usize) -> (result: Result<
    (Vec<Sexp>, usize),
    CompileError,
>)
    requires
        chars@ == source@,
        i <= chars.len(),
    ensures
        match result {
            Ok((items, end)) => read_items_spec(source@, i as int) == Ok::<_, CompileError>(
                (items.deep_view(), end as int),
            ) && i < end <= chars.len(),
            Err(err) => read_items_spec(source@, i as int) == Err::<(Seq<SexpView>, int), _>(err),
        },
    decreases chars.len() - i, 2nat,
{
    let ghost s = source@;
    let ghost goal = read_items_spec(s, i as int);
    let mut items: Vec<Sexp> = empty_deep();
    let mut cur: usize = i;
    proof {
        lemma_read_items(s, i as int);
        match goal {
            Ok((rest, _)) => {
                assert(items.deep_view() + rest =~= rest);
            },
            Err(_) => {},
        }
    }
    loop
        invariant
            s == source@,
            chars@ == source@,
            i <= cur <= chars.len(),
            goal == read_items_spec(s, i as int),
            goal matches Ok((_, end)) ==> i < end <= s.len(),
            match read_items_spec(s, cur as int) {
                Ok((rest, end)) => goal == Ok::<_, CompileError>((items.deep_view() + rest, end)),
                Err(err) => goal == Err::<(Seq<SexpView>, int), _>(err),
            },
        decreases chars.len() - cur,
    {
        let j = skip_blanks(chars, cur);
        if j >= chars.len() {
            return Err(CompileError::UnexpectedEnd);
        }
        if chars[j] == ')' {
            proof {
                assert(items.deep_view() + Seq::<SexpView>::empty() =~= items.deep_view());
            }
            return Ok((items, j + 1));
        }
        proof {
            lemma_read_form(s, j as int);
        }
        match read_form(source, chars, j) {
            Err(err) => {
                return Err(err);
            },
            Ok((first, next)) => {
                let ghost before = items.deep_view();
                push_deep(&mut items, first);
                proof {
                    match read_items_spec(s, next as int) {
                        Ok((rest, _)) => {
                            assert(before + (seq![first@] + rest) =~= items.deep_view() + rest);
                        },
                        Err(_) => {},
                    }
                }
                cur = next;
            },
        }
    }
}

/// Reads every form of a text.
pub fn read_all(source: &str) -> (result: Result<Vec<Sexp>, CompileError>)
    ensures
        match result {
            Ok(forms) => read_all_spec(source@, 0) == Ok::<_, CompileError>(forms.deep_view()),
            Err(err) => read_all_spec(source@, 0) == Err::<Seq<SexpView>, _>(err),
        },
{
    let chars = chars_of(source);
    let ghost s = source@;
    let ghost goal = read_all_spec(s, 0);
    let mut forms: Vec<Sexp> = empty_deep();
    let mut cur: usize = 0;
    proof {
        match goal {
            Ok(rest) => {
                assert(forms.deep_view() + rest =~= rest);
            },
            Err(_) => {},
        }
    }
    loop
        invariant
            s == source@,
            chars@ == source@,
            cur <= chars.len(),
            goal == read_all_spec(s, 0),
            match read_all_spec(s, cur as int) {
                Ok(rest) => goal == Ok::<_, CompileError>(forms.deep_view() + rest),
                Err(err) => goal == Err::<Seq<SexpView>, _>(err),
            },
        decreases chars.len() - cur,
    {
        let j = skip_blanks(&chars, cur);
        if j >= chars.len() {
            proof {
                assert(forms.deep_view() + Seq::<SexpView>::empty() =~= forms.deep_view());
            }
            return Ok(forms);
        }
        proof {
            lemma_read_form(s, j as int);
        }
        match read_form(source, &chars, j) {
            Err(err) => {
                return Err(err);
            },
            Ok((first, next)) => {
                let ghost before = forms.deep_view();
                push_deep(&mut forms, first);
                proof {
                    match read_all_spec(s, next as int) {
                        Ok(rest) => {
                            assert(before + (seq![first@] + rest) =~= forms.deep_view() + rest);
                        },
                        Err(_) => {},
                    }
                }
                cur = next;
            },
        }
    }
}

} // verus!
