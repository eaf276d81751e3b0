use vstd::prelude::*;
use vstd::string::StringSliceAdditionalSpecFns;
use crate::compiler::token::Token;
use crate::compiler::token_kind::TokenKind;
use crate::text::bytes_of;
use crate::text::copy_range;

verus! {

/// `0` to `9`.
pub open spec fn digit(c: u8) -> bool {
    48 <= c <= 57
}

/// A letter or the underscore.
pub open spec fn alpha(c: u8) -> bool {
    (97 <= c <= 122) || (65 <= c <= 90) || c == 95
}

/// Space, carriage return, tab or newline.
pub open spec fn blank(c: u8) -> bool {
    c == 32 || c == 13 || c == 9 || c == 10
}

pub fn is_alpha(ch: u8) -> (b: bool)
    ensures
        b == alpha(ch),
{
    (97 <= ch && ch <= 122) || (65 <= ch && ch <= 90) || ch == 95
}

pub fn is_digit(ch: u8) -> (b: bool)
    ensures
        b == digit(ch),
{
    48 <= ch && ch <= 57
}

/// Where the run of digits that starts at `pos` ends.
pub open spec fn digits_end(src: Seq<u8>, pos: int) -> int
    decreases src.len() - pos,
{
    if 0 <= pos < src.len() && digit(src[pos]) {
        digits_end(src, pos + 1)
    } else {
        pos
    }
}

/// Where the run of letters, digits and underscores that starts at `pos`
/// ends.
pub open spec fn name_end(src: Seq<u8>, pos: int) -> int
    decreases src.len() - pos,
{
    if 0 <= pos < src.len() && (alpha(src[pos]) || digit(src[pos])) {
        name_end(src, pos + 1)
    } else {
        pos
    }
}

/// Where the blanks and comments that start at `pos` end. A comment runs
/// from `//` to the end of its line.
pub open spec fn blank_end(src: Seq<u8>, pos: int, in_comment: bool) -> int
    decreases src.len() - pos, if in_comment { 1int } else { 0int },
{
    if pos < 0 || pos >= src.len() {
        pos
    } else if in_comment {
        if src[pos] == 10 {
            blank_end(src, pos, false)
        } else {
            blank_end(src, pos + 1, true)
        }
    } else if blank(src[pos]) {
        blank_end(src, pos + 1, false)
    } else if src[pos] == 47 && pos + 1 < src.len() && src[pos + 1] == 47 {
        blank_end(src, pos + 1, true)
    } else {
        pos
    }
}

/// Where the quote is that closes the string whose text starts at `pos`,
/// or the end of the source if none does: the first quote at or behind
/// `pos`. There are no escapes.
pub open spec fn string_close(src: Seq<u8>, pos: int) -> int
    decreases src.len() - pos,
{
    if pos < 0 || pos >= src.len() {
        src.len() as int
    } else if src[pos] == 34 {
        pos
    } else {
        string_close(src, pos + 1)
    }
}

/// How many newlines stand in `src` from `from` up to `to`.
pub open spec fn newlines(src: Seq<u8>, from: int, to: int) -> nat
    decreases to - from,
{
    if from >= to || to > src.len() || from < 0 {
        0
    } else {
        newlines(src, from, to - 1) + (if src[to - 1] == 10 {
            1nat
        } else {
            0nat
        })
    }
}

/// The line that is `count` newlines after line `line`, as far as line
/// numbers go.
pub open spec fn line_after(line: u32, count: nat) -> u32 {
    if line + count > u32::MAX {
        u32::MAX
    } else {
        (line + count) as u32
    }
}

/// The kind of the name `text`: a keyword's if it is that keyword, and
/// else an identifier's.
pub open spec fn keyword_kind(text: Seq<u8>) -> TokenKind {
    if text == "and".spec_bytes() {
        TokenKind::And
    } else if text == "class".spec_bytes() {
        TokenKind::Class
    } else if text == "else".spec_bytes() {
        TokenKind::Else
    } else if text == "false".spec_bytes() {
        TokenKind::False
    } else if text == "for".spec_bytes() {
        TokenKind::For
    } else if text == "fun".spec_bytes() {
        TokenKind::Fun
    } else if text == "if".spec_bytes() {
        TokenKind::If
    } else if text == "nil".spec_bytes() {
        TokenKind::Nil
    } else if text == "or".spec_bytes() {
        TokenKind::Or
    } else if text == "print".spec_bytes() {
        TokenKind::Print
    } else if text == "return".spec_bytes() {
        TokenKind::Return
    } else if text == "super".spec_bytes() {
        TokenKind::Super
    } else if text == "this".spec_bytes() {
        TokenKind::This
    } else if text == "true".spec_bytes() {
        TokenKind::True
    } else if text == "var".spec_bytes() {
        TokenKind::Var
    } else if text == "while".spec_bytes() {
        TokenKind::While
    } else {
        TokenKind::Identifier
    }
}

/// The kind of the name `text` as the scanner finds it, by a tree: the
/// first byte picks the keywords that can match, for `f` and `t` so does
/// the second, and the rest is compared.
pub open spec fn keyword_tree(text: Seq<u8>) -> TokenKind {
    if text.len() == 0 {
        TokenKind::Identifier
    } else if text[0] == 97 {
        keyword_rest(text, 1, "nd".spec_bytes(), TokenKind::And)
    } else if text[0] == 99 {
        keyword_rest(text, 1, "lass".spec_bytes(), TokenKind::Class)
    } else if text[0] == 101 {
        keyword_rest(text, 1, "lse".spec_bytes(), TokenKind::Else)
    } else if text[0] == 102 {
        if text.len() < 2 {
            TokenKind::Identifier
        } else if text[1] == 97 {
            keyword_rest(text, 2, "lse".spec_bytes(), TokenKind::False)
        } else if text[1] == 111 {
            keyword_rest(text, 2, "r".spec_bytes(), TokenKind::For)
        } else if text[1] == 117 {
            keyword_rest(text, 2, "n".spec_bytes(), TokenKind::Fun)
        } else {
            TokenKind::Identifier
        }
    } else if text[0] == 105 {
        keyword_rest(text, 1, "f".spec_bytes(), TokenKind::If)
    } else if text[0] == 110 {
        keyword_rest(text, 1, "il".spec_bytes(), TokenKind::Nil)
    } else if text[0] == 111 {
        keyword_rest(text, 1, "r".spec_bytes(), TokenKind::Or)
    } else if text[0] == 112 {
        keyword_rest(text, 1, "rint".spec_bytes(), TokenKind::Print)
    } else if text[0] == 114 {
        keyword_rest(text, 1, "eturn".spec_bytes(), TokenKind::Return)
    } else if text[0] == 115 {
        keyword_rest(text, 1, "uper".spec_bytes(), TokenKind::Super)
    } else if text[0] == 116 {
        if text.len() < 2 {
            TokenKind::Identifier
        } else if text[1] == 104 {
            keyword_rest(text, 2, "is".spec_bytes(), TokenKind::This)
        } else if text[1] == 114 {
            keyword_rest(text, 2, "ue".spec_bytes(), TokenKind::True)
        } else {
            TokenKind::Identifier
        }
    } else if text[0] == 118 {
        keyword_rest(text, 1, "ar".spec_bytes(), TokenKind::Var)
    } else if text[0] == 119 {
        keyword_rest(text, 1, "hile".spec_bytes(), TokenKind::While)
    } else {
        TokenKind::Identifier
    }
}

/// A text that begins as `full` does is `full` just if the rest of it is
/// the rest of `full`.
pub proof fn lemma_keyword_rest(text: Seq<u8>, offset: int, rest: Seq<u8>, full: Seq<u8>)
    requires
        0 <= offset <= full.len(),
        offset <= text.len(),
        forall|i: int| 0 <= i < offset ==> text[i] == full[i],
        full.skip(offset) == rest,
    ensures
        (text.skip(offset) == rest) == (text == full),
{
    if text.skip(offset) == rest {
        assert(text.skip(offset).len() == text.len() - offset);
        assert(full.skip(offset).len() == full.len() - offset);
        assert(text.len() == full.len());
        assert forall|i: int| 0 <= i < text.len() implies text[i] == full[i] by {
            if i >= offset {
                assert(text.skip(offset)[i - offset] == full.skip(offset)[i - offset]);
            }
        }
        assert(text =~= full);
    }
}

/// How `and` and `class` begin, and what the tree compares of them.
pub proof fn lemma_heads_and_class()
    ensures
        "and".spec_bytes().len() == 3 && "and".spec_bytes()[0] == 97 && "and".spec_bytes()[1] == 110 && "and".spec_bytes().skip(1) == "nd".spec_bytes(),
        "class".spec_bytes().len() == 5 && "class".spec_bytes()[0] == 99 && "class".spec_bytes()[1] == 108 && "class".spec_bytes().skip(1) == "lass".spec_bytes(),
{
    reveal_strlit("and");
    reveal_strlit("nd");
    assert(vstd::string::is_ascii("and"));
    assert(vstd::string::is_ascii("nd"));
    vstd::string::is_ascii_spec_bytes("and");
    vstd::string::is_ascii_spec_bytes("nd");
    assert("and".spec_bytes() =~= seq![97u8, 110, 100]);
    assert("nd".spec_bytes() =~= seq![110u8, 100]);
    assert(seq![97u8, 110, 100].skip(1) =~= seq![110u8, 100]);
    reveal_strlit("class");
    reveal_strlit("lass");
    assert(vstd::string::is_ascii("class"));
    assert(vstd::string::is_ascii("lass"));
    vstd::string::is_ascii_spec_bytes("class");
    vstd::string::is_ascii_spec_bytes("lass");
    assert("class".spec_bytes() =~= seq![99u8, 108, 97, 115, 115]);
    assert("lass".spec_bytes() =~= seq![108u8, 97, 115, 115]);
    assert(seq![99u8, 108, 97, 115, 115].skip(1) =~= seq![108u8, 97, 115, 115]);
}

/// How `else` and `false` begin, and what the tree compares of them.
pub proof fn lemma_heads_else_false()
    ensures
        "else".spec_bytes().len() == 4 && "else".spec_bytes()[0] == 101 && "else".spec_bytes()[1] == 108 && "else".spec_bytes().skip(1) == "lse".spec_bytes(),
        "false".spec_bytes().len() == 5 && "false".spec_bytes()[0] == 102 && "false".spec_bytes()[1] == 97 && "false".spec_bytes().skip(2) == "lse".spec_bytes(),
{
    reveal_strlit("else");
    reveal_strlit("lse");
    assert(vstd::string::is_ascii("else"));
    assert(vstd::string::is_ascii("lse"));
    vstd::string::is_ascii_spec_bytes("else");
    vstd::string::is_ascii_spec_bytes("lse");
    assert("else".spec_bytes() =~= seq![101u8, 108, 115, 101]);
    assert("lse".spec_bytes() =~= seq![108u8, 115, 101]);
    assert(seq![101u8, 108, 115, 101].skip(1) =~= seq![108u8, 115, 101]);
    reveal_strlit("false");
    reveal_strlit("lse");
    assert(vstd::string::is_ascii("false"));
    assert(vstd::string::is_ascii("lse"));
    vstd::string::is_ascii_spec_bytes("false");
    vstd::string::is_ascii_spec_bytes("lse");
    assert("false".spec_bytes() =~= seq![102u8, 97, 108, 115, 101]);
    assert("lse".spec_bytes() =~= seq![108u8, 115, 101]);
    assert(seq![102u8, 97, 108, 115, 101].skip(2) =~= seq![108u8, 115, 101]);
}

/// How `for` and `fun` begin, and what the tree compares of them.
pub proof fn lemma_heads_for_fun()
    ensures
        "for".spec_bytes().len() == 3 && "for".spec_bytes()[0] == 102 && "for".spec_bytes()[1] == 111 && "for".spec_bytes().skip(2) == "r".spec_bytes(),
        "fun".spec_bytes().len() == 3 && "fun".spec_bytes()[0] == 102 && "fun".spec_bytes()[1] == 117 && "fun".spec_bytes().skip(2) == "n".spec_bytes(),
{
    reveal_strlit("for");
    reveal_strlit("r");
    assert(vstd::string::is_ascii("for"));
    assert(vstd::string::is_ascii("r"));
    vstd::string::is_ascii_spec_bytes("for");
    vstd::string::is_ascii_spec_bytes("r");
    assert("for".spec_bytes() =~= seq![102u8, 111, 114]);
    assert("r".spec_bytes() =~= seq![114u8]);
    assert(seq![102u8, 111, 114].skip(2) =~= seq![114u8]);
    reveal_strlit("fun");
    reveal_strlit("n");
    assert(vstd::string::is_ascii("fun"));
    assert(vstd::string::is_ascii("n"));
    vstd::string::is_ascii_spec_bytes("fun");
    vstd::string::is_ascii_spec_bytes("n");
    assert("fun".spec_bytes() =~= seq![102u8, 117, 110]);
    assert("n".spec_bytes() =~= seq![110u8]);
    assert(seq![102u8, 117, 110].skip(2) =~= seq![110u8]);
}

/// How `if` and `nil` begin, and what the tree compares of them.
pub proof fn lemma_heads_if_nil()
    ensures
        "if".spec_bytes().len() == 2 && "if".spec_bytes()[0] == 105 && "if".spec_bytes()[1] == 102 && "if".spec_bytes().skip(1) == "f".spec_bytes(),
        "nil".spec_bytes().len() == 3 && "nil".spec_bytes()[0] == 110 && "nil".spec_bytes()[1] == 105 && "nil".spec_bytes().skip(1) == "il".spec_bytes(),
{
    reveal_strlit("if");
    reveal_strlit("f");
    assert(vstd::string::is_ascii("if"));
    assert(vstd::string::is_ascii("f"));
    vstd::string::is_ascii_spec_bytes("if");
    vstd::string::is_ascii_spec_bytes("f");
    assert("if".spec_bytes() =~= seq![105u8, 102]);
    assert("f".spec_bytes() =~= seq![102u8]);
    assert(seq![105u8, 102].skip(1) =~= seq![102u8]);
    reveal_strlit("nil");
    reveal_strlit("il");
    assert(vstd::string::is_ascii("nil"));
    assert(vstd::string::is_ascii("il"));
    vstd::string::is_ascii_spec_bytes("nil");
    vstd::string::is_ascii_spec_bytes("il");
    assert("nil".spec_bytes() =~= seq![110u8, 105, 108]);
    assert("il".spec_bytes() =~= seq![105u8, 108]);
    assert(seq![110u8, 105, 108].skip(1) =~= seq![105u8, 108]);
}

/// How `or` and `print` begin, and what the tree compares of them.
pub proof fn lemma_heads_or_print()
    ensures
        "or".spec_bytes().len() == 2 && "or".spec_bytes()[0] == 111 && "or".spec_bytes()[1] == 114 && "or".spec_bytes().skip(1) == "r".spec_bytes(),
        "print".spec_bytes().len() == 5 && "print".spec_bytes()[0] == 112 && "print".spec_bytes()[1] == 114 && "print".spec_bytes().skip(1) == "rint".spec_bytes(),
{
    reveal_strlit("or");
    reveal_strlit("r");
    assert(vstd::string::is_ascii("or"));
    assert(vstd::string::is_ascii("r"));
    vstd::string::is_ascii_spec_bytes("or");
    vstd::string::is_ascii_spec_bytes("r");
    assert("or".spec_bytes() =~= seq![111u8, 114]);
    assert("r".spec_bytes() =~= seq![114u8]);
    assert(seq![111u8, 114].skip(1) =~= seq![114u8]);
    reveal_strlit("print");
    reveal_strlit("rint");
    assert(vstd::string::is_ascii("print"));
    assert(vstd::string::is_ascii("rint"));
    vstd::string::is_ascii_spec_bytes("print");
    vstd::string::is_ascii_spec_bytes("rint");
    assert("print".spec_bytes() =~= seq![112u8, 114, 105, 110, 116]);
    assert("rint".spec_bytes() =~= seq![114u8, 105, 110, 116]);
    assert(seq![112u8, 114, 105, 110, 116].skip(1) =~= seq![114u8, 105, 110, 116]);
}

/// How `return` and `super` begin, and what the tree compares of them.
pub proof fn lemma_heads_return_super()
    ensures
        "return".spec_bytes().len() == 6 && "return".spec_bytes()[0] == 114 && "return".spec_bytes()[1] == 101 && "return".spec_bytes().skip(1) == "eturn".spec_bytes(),
        "super".spec_bytes().len() == 5 && "super".spec_bytes()[0] == 115 && "super".spec_bytes()[1] == 117 && "super".spec_bytes().skip(1) == "uper".spec_bytes(),
{
    reveal_strlit("return");
    reveal_strlit("eturn");
    assert(vstd::string::is_ascii("return"));
    assert(vstd::string::is_ascii("eturn"));
    vstd::string::is_ascii_spec_bytes("return");
    vstd::string::is_ascii_spec_bytes("eturn");
    assert("return".spec_bytes() =~= seq![114u8, 101, 116, 117, 114, 110]);
    assert("eturn".spec_bytes() =~= seq![101u8, 116, 117, 114, 110]);
    assert(seq![114u8, 101, 116, 117, 114, 110].skip(1) =~= seq![101u8, 116, 117, 114, 110]);
    reveal_strlit("super");
    reveal_strlit("uper");
    assert(vstd::string::is_ascii("super"));
    assert(vstd::string::is_ascii("uper"));
    vstd::string::is_ascii_spec_bytes("super");
    vstd::string::is_ascii_spec_bytes("uper");
    assert("super".spec_bytes() =~= seq![115u8, 117, 112, 101, 114]);
    assert("uper".spec_bytes() =~= seq![117u8, 112, 101, 114]);
    assert(seq![115u8, 117, 112, 101, 114].skip(1) =~= seq![117u8, 112, 101, 114]);
}

/// How `this` and `true` begin, and what the tree compares of them.
pub proof fn lemma_heads_this_true()
    ensures
        "this".spec_bytes().len() == 4 && "this".spec_bytes()[0] == 116 && "this".spec_bytes()[1] == 104 && "this".spec_bytes().skip(2) == "is".spec_bytes(),
        "true".spec_bytes().len() == 4 && "true".spec_bytes()[0] == 116 && "true".spec_bytes()[1] == 114 && "true".spec_bytes().skip(2) == "ue".spec_bytes(),
{
    reveal_strlit("this");
    reveal_strlit("is");
    assert(vstd::string::is_ascii("this"));
    assert(vstd::string::is_ascii("is"));
    vstd::string::is_ascii_spec_bytes("this");
    vstd::string::is_ascii_spec_bytes("is");
    assert("this".spec_bytes() =~= seq![116u8, 104, 105, 115]);
    assert("is".spec_bytes() =~= seq![105u8, 115]);
    assert(seq![116u8, 104, 105, 115].skip(2) =~= seq![105u8, 115]);
    reveal_strlit("true");
    reveal_strlit("ue");
    assert(vstd::string::is_ascii("true"));
    assert(vstd::string::is_ascii("ue"));
    vstd::string::is_ascii_spec_bytes("true");
    vstd::string::is_ascii_spec_bytes("ue");
    assert("true".spec_bytes() =~= seq![116u8, 114, 117, 101]);
    assert("ue".spec_bytes() =~= seq![117u8, 101]);
    assert(seq![116u8, 114, 117, 101].skip(2) =~= seq![117u8, 101]);
}

/// How `var` and `while` begin, and what the tree compares of them.
pub proof fn lemma_heads_var_while()
    ensures
        "var".spec_bytes().len() == 3 && "var".spec_bytes()[0] == 118 && "var".spec_bytes()[1] == 97 && "var".spec_bytes().skip(1) == "ar".spec_bytes(),
        "while".spec_bytes().len() == 5 && "while".spec_bytes()[0] == 119 && "while".spec_bytes()[1] == 104 && "while".spec_bytes().skip(1) == "hile".spec_bytes(),
{
    reveal_strlit("var");
    reveal_strlit("ar");
    assert(vstd::string::is_ascii("var"));
    assert(vstd::string::is_ascii("ar"));
    vstd::string::is_ascii_spec_bytes("var");
    vstd::string::is_ascii_spec_bytes("ar");
    assert("var".spec_bytes() =~= seq![118u8, 97, 114]);
    assert("ar".spec_bytes() =~= seq![97u8, 114]);
    assert(seq![118u8, 97, 114].skip(1) =~= seq![97u8, 114]);
    reveal_strlit("while");
    reveal_strlit("hile");
    assert(vstd::string::is_ascii("while"));
    assert(vstd::string::is_ascii("hile"));
    vstd::string::is_ascii_spec_bytes("while");
    vstd::string::is_ascii_spec_bytes("hile");
    assert("while".spec_bytes() =~= seq![119u8, 104, 105, 108, 101]);
    assert("hile".spec_bytes() =~= seq![104u8, 105, 108, 101]);
    assert(seq![119u8, 104, 105, 108, 101].skip(1) =~= seq![104u8, 105, 108, 101]);
}

/// How the keywords begin, and what the tree compares of each.
pub proof fn lemma_keyword_heads()
    ensures
        "and".spec_bytes().len() == 3 && "and".spec_bytes()[0] == 97 && "and".spec_bytes()[1] == 110 && "and".spec_bytes().skip(1) == "nd".spec_bytes(),
        "class".spec_bytes().len() == 5 && "class".spec_bytes()[0] == 99 && "class".spec_bytes()[1] == 108 && "class".spec_bytes().skip(1) == "lass".spec_bytes(),
        "else".spec_bytes().len() == 4 && "else".spec_bytes()[0] == 101 && "else".spec_bytes()[1] == 108 && "else".spec_bytes().skip(1) == "lse".spec_bytes(),
        "false".spec_bytes().len() == 5 && "false".spec_bytes()[0] == 102 && "false".spec_bytes()[1] == 97 && "false".spec_bytes().skip(2) == "lse".spec_bytes(),
        "for".spec_bytes().len() == 3 && "for".spec_bytes()[0] == 102 && "for".spec_bytes()[1] == 111 && "for".spec_bytes().skip(2) == "r".spec_bytes(),
        "fun".spec_bytes().len() == 3 && "fun".spec_bytes()[0] == 102 && "fun".spec_bytes()[1] == 117 && "fun".spec_bytes().skip(2) == "n".spec_bytes(),
        "if".spec_bytes().len() == 2 && "if".spec_bytes()[0] == 105 && "if".spec_bytes()[1] == 102 && "if".spec_bytes().skip(1) == "f".spec_bytes(),
        "nil".spec_bytes().len() == 3 && "nil".spec_bytes()[0] == 110 && "nil".spec_bytes()[1] == 105 && "nil".spec_bytes().skip(1) == "il".spec_bytes(),
        "or".spec_bytes().len() == 2 && "or".spec_bytes()[0] == 111 && "or".spec_bytes()[1] == 114 && "or".spec_bytes().skip(1) == "r".spec_bytes(),
        "print".spec_bytes().len() == 5 && "print".spec_bytes()[0] == 112 && "print".spec_bytes()[1] == 114 && "print".spec_bytes().skip(1) == "rint".spec_bytes(),
        "return".spec_bytes().len() == 6 && "return".spec_bytes()[0] == 114 && "return".spec_bytes()[1] == 101 && "return".spec_bytes().skip(1) == "eturn".spec_bytes(),
        "super".spec_bytes().len() == 5 && "super".spec_bytes()[0] == 115 && "super".spec_bytes()[1] == 117 && "super".spec_bytes().skip(1) == "uper".spec_bytes(),
        "this".spec_bytes().len() == 4 && "this".spec_bytes()[0] == 116 && "this".spec_bytes()[1] == 104 && "this".spec_bytes().skip(2) == "is".spec_bytes(),
        "true".spec_bytes().len() == 4 && "true".spec_bytes()[0] == 116 && "true".spec_bytes()[1] == 114 && "true".spec_bytes().skip(2) == "ue".spec_bytes(),
        "var".spec_bytes().len() == 3 && "var".spec_bytes()[0] == 118 && "var".spec_bytes()[1] == 97 && "var".spec_bytes().skip(1) == "ar".spec_bytes(),
        "while".spec_bytes().len() == 5 && "while".spec_bytes()[0] == 119 && "while".spec_bytes()[1] == 104 && "while".spec_bytes().skip(1) == "hile".spec_bytes(),
{
    lemma_heads_and_class();
    lemma_heads_else_false();
    lemma_heads_for_fun();
    lemma_heads_if_nil();
    lemma_heads_or_print();
    lemma_heads_return_super();
    lemma_heads_this_true();
    lemma_heads_var_while();
}

/// The tree finds the keywords, and nothing else.
pub proof fn lemma_keyword_tree(text: Seq<u8>)
    ensures
        keyword_tree(text) == keyword_kind(text),
{
    lemma_keyword_heads();
    if text.len() > 0 {
        if text[0] == 97 {
            lemma_keyword_rest(text, 1, "nd".spec_bytes(), "and".spec_bytes());
        }
        if text[0] == 99 {
            lemma_keyword_rest(text, 1, "lass".spec_bytes(), "class".spec_bytes());
        }
        if text[0] == 101 {
            lemma_keyword_rest(text, 1, "lse".spec_bytes(), "else".spec_bytes());
        }
        if text.len() > 1 && text[0] == 102 && text[1] == 97 {
            lemma_keyword_rest(text, 2, "lse".spec_bytes(), "false".spec_bytes());
        }
        if text.len() > 1 && text[0] == 102 && text[1] == 111 {
            lemma_keyword_rest(text, 2, "r".spec_bytes(), "for".spec_bytes());
        }
        if text.len() > 1 && text[0] == 102 && text[1] == 117 {
            lemma_keyword_rest(text, 2, "n".spec_bytes(), "fun".spec_bytes());
        }
        if text[0] == 105 {
            lemma_keyword_rest(text, 1, "f".spec_bytes(), "if".spec_bytes());
        }
        if text[0] == 110 {
            lemma_keyword_rest(text, 1, "il".spec_bytes(), "nil".spec_bytes());
        }
        if text[0] == 111 {
            lemma_keyword_rest(text, 1, "r".spec_bytes(), "or".spec_bytes());
        }
        if text[0] == 112 {
            lemma_keyword_rest(text, 1, "rint".spec_bytes(), "print".spec_bytes());
        }
        if text[0] == 114 {
            lemma_keyword_rest(text, 1, "eturn".spec_bytes(), "return".spec_bytes());
        }
        if text[0] == 115 {
            lemma_keyword_rest(text, 1, "uper".spec_bytes(), "super".spec_bytes());
        }
        if text.len() > 1 && text[0] == 116 && text[1] == 104 {
            lemma_keyword_rest(text, 2, "is".spec_bytes(), "this".spec_bytes());
        }
        if text.len() > 1 && text[0] == 116 && text[1] == 114 {
            lemma_keyword_rest(text, 2, "ue".spec_bytes(), "true".spec_bytes());
        }
        if text[0] == 118 {
            lemma_keyword_rest(text, 1, "ar".spec_bytes(), "var".spec_bytes());
        }
        if text[0] == 119 {
            lemma_keyword_rest(text, 1, "hile".spec_bytes(), "while".spec_bytes());
        }
    }
}

/// `kind` if `text` from `offset` on is `rest`, and else an identifier.
pub open spec fn keyword_rest(text: Seq<u8>, offset: int, rest: Seq<u8>, kind: TokenKind) -> TokenKind {
    if text.skip(offset) == rest {
        kind
    } else {
        TokenKind::Identifier
    }
}

/// The kind of the token that starts at `start`, which is inside the
/// source and is no blank, and where the token ends.
pub open spec fn lexed(src: Seq<u8>, start: int) -> (TokenKind, int) {
    let c = src[start];
    let next_is_equal = start + 1 < src.len() && src[start + 1] == 61;
    if alpha(c) {
        let end = name_end(src, start + 1);
        (keyword_kind(src.subrange(start, end)), end)
    } else if digit(c) {
        let whole = digits_end(src, start + 1);
        if whole + 1 < src.len() && src[whole] == 46 && digit(src[whole + 1]) {
            (TokenKind::Number, digits_end(src, whole + 2))
        } else {
            (TokenKind::Number, whole)
        }
    } else if c == 34 {
        let close = string_close(src, start + 1);
        if close < src.len() {
            (TokenKind::String, close + 1)
        } else {
            (TokenKind::Error, close)
        }
    } else if c == 40 {
        (TokenKind::LParen, start + 1)
    } else if c == 41 {
        (TokenKind::RParen, start + 1)
    } else if c == 123 {
        (TokenKind::LBrace, start + 1)
    } else if c == 125 {
        (TokenKind::RBrace, start + 1)
    } else if c == 59 {
        (TokenKind::Semicolon, start + 1)
    } else if c == 44 {
        (TokenKind::Comma, start + 1)
    } else if c == 46 {
        (TokenKind::Dot, start + 1)
    } else if c == 45 {
        (TokenKind::Minus, start + 1)
    } else if c == 43 {
        (TokenKind::Plus, start + 1)
    } else if c == 47 {
        (TokenKind::Slash, start + 1)
    } else if c == 42 {
        (TokenKind::Star, start + 1)
    } else if c == 33 {
        if next_is_equal {
            (TokenKind::BangEqual, start + 2)
        } else {
            (TokenKind::Bang, start + 1)
        }
    } else if c == 61 {
        if next_is_equal {
            (TokenKind::EqualEqual, start + 2)
        } else {
            (TokenKind::Equal, start + 1)
        }
    } else if c == 60 {
        if next_is_equal {
            (TokenKind::LessEqual, start + 2)
        } else {
            (TokenKind::Less, start + 1)
        }
    } else if c == 62 {
        if next_is_equal {
            (TokenKind::GreaterEqual, start + 2)
        } else {
            (TokenKind::Greater, start + 1)
        }
    } else {
        (TokenKind::Error, start + 1)
    }
}

/// The text of the token of kind `kind` that runs from `start` to `end`:
/// for an error the message, for the end of the source nothing, and else
/// the bytes of the source.
pub open spec fn token_text(src: Seq<u8>, start: int, kind: TokenKind, end: int) -> Seq<u8> {
    if kind == TokenKind::Error {
        if src[start] == 34 {
            "Unterminated string.".spec_bytes()
        } else {
            "Unexpected character.".spec_bytes()
        }
    } else {
        src.subrange(start, end)
    }
}

/// A token as `scan` finds it: its kind and text, where it ends, and the
/// line it ends on.
pub ghost struct Scan {
    pub kind: TokenKind,
    pub text: Seq<u8>,
    pub end: int,
    pub line: u32,
}

/// The token that stands at or behind `pos` in `src`, where line `line`
/// has been reached: blanks and comments are skipped, the token behind
/// them is read, and every newline on the way counts. At the end of the
/// source stands the token `Eof`.
pub open spec fn scan(src: Seq<u8>, pos: int, line: u32) -> Scan {
    let start = blank_end(src, pos, false);
    let reached = line_after(line, newlines(src, pos, start));
    if start >= src.len() {
        Scan { kind: TokenKind::Eof, text: Seq::empty(), end: src.len() as int, line: reached }
    } else {
        let (kind, end) = lexed(src, start);
        Scan {
            kind,
            text: token_text(src, start, kind, end),
            end,
            line: line_after(
                reached,
                if src[start] == 34 {
                    newlines(src, start + 1, end)
                } else {
                    0
                },
            ),
        }
    }
}

/// Turns source text into tokens, one at a time.
pub struct Scanner {
    pub source: Vec<u8>,
    /// Where the token being scanned starts.
    pub start: usize,
    /// The next byte to look at.
    pub current: usize,
    pub line_no: u32,
}

impl Scanner {
    /// The scanner stands inside its source.
    pub open spec fn wf(&self) -> bool {
        self.start <= self.current <= self.source@.len()
    }

    /// A scanner at the start of `source`, on line 1.
    pub fn new(source: &str) -> (scanner: Self)
        ensures
            scanner.wf(),
            scanner.source@ == source.spec_bytes(),
            scanner.start == 0,
            scanner.current == 0,
            scanner.line_no == 1,
    {
        Scanner { source: bytes_of(source), start: 0, current: 0, line_no: 1 }
    }

    /// What scanning one token does: the scanner stands behind the token
    /// that `scan` finds, on the line it ends on, and the token is that
    /// token.
    pub open spec fn scanned(before: &Self, after: &Self, token: &Token) -> bool {
        let found = scan(before.source@, before.current as int, before.line_no);
        &&& after.source == before.source
        &&& after.start == after.current
        &&& after.current == found.end
        &&& after.line_no == found.line
        &&& token.kind == found.kind
        &&& token.text@ == found.text
        &&& token.line == found.line
    }

    /// Scans the next token.
    pub fn scan_token(&mut self) -> (token: Token)
        requires
            old(self).wf(),
        ensures
            final(self).wf(),
            Self::scanned(old(self), final(self), &token),
            final(self).current >= old(self).current,
            token.kind != TokenKind::Eof ==> final(self).current > old(self).current,
            token.kind != TokenKind::Sof,
    {
        self.skip_whitespace();
        self.start = self.current;
        if self.is_at_end() {
            let token = self.make_token(TokenKind::Eof);
            assert(token.text@ =~= Seq::<u8>::empty());
            return token;
        }
        let ch = self.advance();
        if is_alpha(ch) {
            return self.identifier();
        }
        if is_digit(ch) {
            return self.number();
        }
        if ch == 34 {
            return self.string();
        }
        if ch == 40 {
            return self.make_token(TokenKind::LParen);
        }
        if ch == 41 {
            return self.make_token(TokenKind::RParen);
        }
        if ch == 123 {
            return self.make_token(TokenKind::LBrace);
        }
        if ch == 125 {
            return self.make_token(TokenKind::RBrace);
        }
        if ch == 59 {
            return self.make_token(TokenKind::Semicolon);
        }
        if ch == 44 {
            return self.make_token(TokenKind::Comma);
        }
        if ch == 46 {
            return self.make_token(TokenKind::Dot);
        }
        if ch == 45 {
            return self.make_token(TokenKind::Minus);
        }
        if ch == 43 {
            return self.make_token(TokenKind::Plus);
        }
        if ch == 47 {
            return self.make_token(TokenKind::Slash);
        }
        if ch == 42 {
            return self.make_token(TokenKind::Star);
        }
        if ch == 33 {
            let kind = if self.match_ch(61) {
                TokenKind::BangEqual
            } else {
                TokenKind::Bang
            };
            return self.make_token(kind);
        }
        if ch == 61 {
            let kind = if self.match_ch(61) {
                TokenKind::EqualEqual
            } else {
                TokenKind::Equal
            };
            return self.make_token(kind);
        }
        if ch == 60 {
            let kind = if self.match_ch(61) {
                TokenKind::LessEqual
            } else {
                TokenKind::Less
            };
            return self.make_token(kind);
        }
        if ch == 62 {
            let kind = if self.match_ch(61) {
                TokenKind::GreaterEqual
            } else {
                TokenKind::Greater
            };
            return self.make_token(kind);
        }
        self.error_token("Unexpected character.")
    }

    /// An error token with the message `msg`.
    pub fn error_token(&mut self, msg: &str) -> (token: Token)
        requires
            old(self).wf(),
        ensures
            final(self).wf(),
            token.kind == TokenKind::Error,
            token.text@ == msg.spec_bytes(),
            token.line == old(self).line_no,
            final(self).source == old(self).source,
            final(self).current == old(self).current,
            final(self).start == old(self).current,
            final(self).line_no == old(self).line_no,
    {
        self.start = self.current;
        Token { kind: TokenKind::Error, text: bytes_of(msg), line: self.line_no }
    }

    /// The token of kind `kind` from where the scanner started to where
    /// it stands.
    pub fn make_token(&mut self, kind: TokenKind) -> (token: Token)
        requires
            old(self).wf(),
        ensures
            final(self).wf(),
            token.kind == kind,
            token.text@ == old(self).source@.subrange(
                old(self).start as int,
                old(self).current as int,
            ),
            token.line == old(self).line_no,
            final(self).source == old(self).source,
            final(self).current == old(self).current,
            final(self).start == old(self).current,
            final(self).line_no == old(self).line_no,
    {
        let text = copy_range(&self.source, self.start, self.current);
        self.start = self.current;
        Token { kind, text, line: self.line_no }
    }

    /// Takes the next byte. At the end of the source it gives the byte
    /// zero and stays where it is.
    pub fn advance(&mut self) -> (ch: u8)
        requires
            old(self).wf(),
        ensures
            final(self).wf(),
            old(self).current < old(self).source@.len() ==> ch == old(self).source@[old(self).current as int] && final(self).current == old(self).current + 1,
            old(self).current >= old(self).source@.len() ==> ch == 0 && final(self).current
                == old(self).current,
            final(self).source == old(self).source,
            final(self).start == old(self).start,
            final(self).line_no == old(self).line_no,
    {
        if self.current < self.source.len() {
            let ch = self.source[self.current];
            self.current = self.current + 1;
            ch
        } else {
            0
        }
    }

    /// The kind of the name `text`.
    pub fn identifier_type(text: &Vec<u8>) -> (kind: TokenKind)
        ensures
            kind == keyword_kind(text@),
    {
        proof {
            lemma_keyword_tree(text@);
        }
        if text.len() == 0 {
            return TokenKind::Identifier;
        }
        let first = text[0];
        if first == 97 {
            Self::check_keyword(text, 1, "nd", TokenKind::And)
        } else if first == 99 {
            Self::check_keyword(text, 1, "lass", TokenKind::Class)
        } else if first == 101 {
            Self::check_keyword(text, 1, "lse", TokenKind::Else)
        } else if first == 102 {
            if text.len() < 2 {
                TokenKind::Identifier
            } else if text[1] == 97 {
                Self::check_keyword(text, 2, "lse", TokenKind::False)
            } else if text[1] == 111 {
                Self::check_keyword(text, 2, "r", TokenKind::For)
            } else if text[1] == 117 {
                Self::check_keyword(text, 2, "n", TokenKind::Fun)
            } else {
                TokenKind::Identifier
            }
        } else if first == 105 {
            Self::check_keyword(text, 1, "f", TokenKind::If)
        } else if first == 110 {
            Self::check_keyword(text, 1, "il", TokenKind::Nil)
        } else if first == 111 {
            Self::check_keyword(text, 1, "r", TokenKind::Or)
        } else if first == 112 {
            Self::check_keyword(text, 1, "rint", TokenKind::Print)
        } else if first == 114 {
            Self::check_keyword(text, 1, "eturn", TokenKind::Return)
        } else if first == 115 {
            Self::check_keyword(text, 1, "uper", TokenKind::Super)
        } else if first == 116 {
            if text.len() < 2 {
                TokenKind::Identifier
            } else if text[1] == 104 {
                Self::check_keyword(text, 2, "is", TokenKind::This)
            } else if text[1] == 114 {
                Self::check_keyword(text, 2, "ue", TokenKind::True)
            } else {
                TokenKind::Identifier
            }
        } else if first == 118 {
            Self::check_keyword(text, 1, "ar", TokenKind::Var)
        } else if first == 119 {
            Self::check_keyword(text, 1, "hile", TokenKind::While)
        } else {
            TokenKind::Identifier
        }
    }

    /// `kind` if `text` from `offset` on is `kw`, and else an identifier.
    pub fn check_keyword(text: &Vec<u8>, offset: usize, kw: &str, kind: TokenKind) -> (found:
        TokenKind)
        requires
            offset <= text@.len(),
        ensures
            found == keyword_rest(text@, offset as int, kw.spec_bytes(), kind),
    {
        let rest = kw.as_bytes();
        let count = text.len();
        if text.len() - offset != rest.len() {
            assert(text@.skip(offset as int).len() != kw.spec_bytes().len());
            return TokenKind::Identifier;
        }
        let mut i: usize = 0;
        while i < rest.len()
            invariant
                i <= rest@.len(),
                rest@ == kw.spec_bytes(),
                text@.len() == count,
                text@.len() - offset == rest@.len(),
                forall|j: int| 0 <= j < i ==> text@[offset + j] == rest@[j],
            decreases rest@.len() - i,
        {
            if text[offset + i] != rest[i] {
                assert(text@.skip(offset as int)[i as int] != rest@[i as int]);
                return TokenKind::Identifier;
            }
            i += 1;
        }
        assert(text@.skip(offset as int) =~= rest@);
        kind
    }

    /// Reads the rest of a name, whose first byte is taken.
    fn identifier(&mut self) -> (token: Token)
        requires
            old(self).wf(),
            old(self).start < old(self).current,
        ensures
            final(self).wf(),
            final(self).source == old(self).source,
            final(self).line_no == old(self).line_no,
            final(self).start == final(self).current,
            final(self).current == name_end(old(self).source@, old(self).current as int),
            final(self).current >= old(self).current,
            token.kind == keyword_kind(
                old(self).source@.subrange(old(self).start as int, final(self).current as int),
            ),
            token.text@ == old(self).source@.subrange(
                old(self).start as int,
                final(self).current as int,
            ),
            token.line == old(self).line_no,
    {
        while self.current < self.source.len() && (is_alpha(self.source[self.current]) || is_digit(
            self.source[self.current],
        ))
            invariant
                self.wf(),
                self.source == old(self).source,
                self.start == old(self).start,
                self.line_no == old(self).line_no,
                self.current >= old(self).current,
                name_end(self.source@, self.current as int) == name_end(
                    self.source@,
                    old(self).current as int,
                ),
            decreases self.source@.len() - self.current,
        {
            self.current = self.current + 1;
        }
        let text = copy_range(&self.source, self.start, self.current);
        let kind = Self::identifier_type(&text);
        self.start = self.current;
        Token { kind, text, line: self.line_no }
    }

    /// Whether the scanner has reached the end of the source.
    pub fn is_at_end(&self) -> (b: bool)
        requires
            self.wf(),
        ensures
            b == (self.current == self.source@.len()),
    {
        self.current >= self.source.len()
    }

    /// Takes the next byte if it is `expect`.
    pub fn match_ch(&mut self, expect: u8) -> (matched: bool)
        requires
            old(self).wf(),
        ensures
            final(self).wf(),
            matched == (old(self).current < old(self).source@.len() && old(self).source@[old(self).current as int] == expect),
            final(self).current == old(self).current + (if matched {
                1int
            } else {
                0int
            }),
            final(self).source == old(self).source,
            final(self).start == old(self).start,
            final(self).line_no == old(self).line_no,
    {
        if self.current < self.source.len() && self.source[self.current] == expect {
            self.current = self.current + 1;
            true
        } else {
            false
        }
    }

    fn digits(&mut self)
        requires
            old(self).wf(),
        ensures
            final(self).wf(),
            final(self).source == old(self).source,
            final(self).start == old(self).start,
            final(self).line_no == old(self).line_no,
            final(self).current == digits_end(old(self).source@, old(self).current as int),
            final(self).current >= old(self).current,
    {
        while self.current < self.source.len() && is_digit(self.source[self.current])
            invariant
                self.wf(),
                self.source == old(self).source,
                self.start == old(self).start,
                self.line_no == old(self).line_no,
                self.current >= old(self).current,
                digits_end(self.source@, self.current as int) == digits_end(
                    self.source@,
                    old(self).current as int,
                ),
            decreases self.source@.len() - self.current,
        {
            self.current = self.current + 1;
        }
    }

    /// Reads the rest of a number, whose first digit is taken.
    fn number(&mut self) -> (token: Token)
        requires
            old(self).wf(),
            old(self).start + 1 == old(self).current,
            digit(old(self).source@[old(self).start as int]),
        ensures
            final(self).wf(),
            final(self).source == old(self).source,
            final(self).line_no == old(self).line_no,
            final(self).start == final(self).current,
            final(self).current >= old(self).current,
            (token.kind, final(self).current as int) == lexed(
                old(self).source@,
                old(self).start as int,
            ),
            token.text@ == old(self).source@.subrange(
                old(self).start as int,
                final(self).current as int,
            ),
            token.line == old(self).line_no,
    {
        self.digits();
        if self.current < self.source.len() && self.source[self.current] == 46 && self.current + 1
            < self.source.len() && is_digit(self.source[self.current + 1]) {
            self.current = self.current + 2;
            self.digits();
        }
        self.make_token(TokenKind::Number)
    }

    /// The next byte, or zero at the end of the source.
    pub fn peek(&self) -> (ch: u8)
        requires
            self.wf(),
        ensures
            ch == (if self.current < self.source@.len() {
                self.source@[self.current as int]
            } else {
                0
            }),
    {
        if self.current < self.source.len() {
            self.source[self.current]
        } else {
            0
        }
    }

    /// The byte after the next, or zero if there is none.
    pub fn peek_next(&self) -> (ch: u8)
        requires
            self.wf(),
        ensures
            ch == (if self.current + 1 < self.source@.len() {
                self.source@[self.current + 1]
            } else {
                0
            }),
    {
        if self.current < self.source.len() && self.current + 1 < self.source.len() {
            self.source[self.current + 1]
        } else {
            0
        }
    }

    fn count_line(&mut self)
        ensures
            final(self).line_no == line_after(old(self).line_no, 1),
            final(self).source == old(self).source,
            final(self).start == old(self).start,
            final(self).current == old(self).current,
    {
        if self.line_no < u32::MAX {
            self.line_no = self.line_no + 1;
        }
    }

    /// Skips blanks and comments, and counts the newlines among them.
    pub fn skip_whitespace(&mut self)
        requires
            old(self).wf(),
        ensures
            final(self).wf(),
            final(self).source == old(self).source,
            final(self).start == old(self).start,
            final(self).current == blank_end(old(self).source@, old(self).current as int, false),
            final(self).current >= old(self).current,
            final(self).line_no == line_after(
                old(self).line_no,
                newlines(old(self).source@, old(self).current as int, final(self).current as int),
            ),
    {
        let ghost src = self.source@;
        let ghost from = self.current as int;
        let mut in_comment = false;
        loop
            invariant
                self.wf(),
                self.source == old(self).source,
                src == self.source@,
                from == old(self).current,
                self.start == old(self).start,
                self.current >= old(self).current,
                blank_end(src, self.current as int, in_comment) == blank_end(src, from, false),
                self.line_no == line_after(
                    old(self).line_no,
                    newlines(src, from, self.current as int),
                ),
            ensures
                self.wf(),
                self.source == old(self).source,
                self.start == old(self).start,
                self.current >= old(self).current,
                self.current == blank_end(src, from, false),
                self.line_no == line_after(
                    old(self).line_no,
                    newlines(src, from, self.current as int),
                ),
            decreases self.source@.len() - self.current, if in_comment { 1int } else { 0int },
        {
            if self.current >= self.source.len() {
                break ;
            }
            let ch = self.source[self.current];
            if in_comment {
                if ch == 10 {
                    in_comment = false;
                } else {
                    self.current = self.current + 1;
                }
            } else if ch == 10 {
                self.count_line();
                self.current = self.current + 1;
            } else if ch == 32 || ch == 13 || ch == 9 {
                self.current = self.current + 1;
            } else if ch == 47 && self.current + 1 < self.source.len() && self.source[self.current
                + 1] == 47 {
                in_comment = true;
                self.current = self.current + 1;
            } else {
                break ;
            }
        }
    }

    /// Reads the rest of a string, whose opening quote is taken.
    fn string(&mut self) -> (token: Token)
        requires
            old(self).wf(),
            old(self).start + 1 == old(self).current,
            old(self).source@[old(self).start as int] == 34,
        ensures
            final(self).wf(),
            final(self).source == old(self).source,
            final(self).start == final(self).current,
            final(self).current >= old(self).current,
            (token.kind, final(self).current as int) == lexed(
                old(self).source@,
                old(self).start as int,
            ),
            token.text@ == token_text(
                old(self).source@,
                old(self).start as int,
                token.kind,
                final(self).current as int,
            ),
            final(self).line_no == line_after(
                old(self).line_no,
                newlines(old(self).source@, old(self).current as int, final(self).current as int),
            ),
            token.line == final(self).line_no,
    {
        let ghost src = self.source@;
        let ghost from = self.current as int;
        while self.current < self.source.len()
            invariant
                self.wf(),
                self.source == old(self).source,
                src == self.source@,
                from == old(self).current,
                self.start == old(self).start,
                self.current >= old(self).current,
                from == self.start + 1,
                src[self.start as int] == 34,
                string_close(src, self.current as int) == string_close(src, from),
                self.line_no == line_after(
                    old(self).line_no,
                    newlines(src, from, self.current as int),
                ),
            decreases self.source@.len() - self.current,
        {
            let ch = self.source[self.current];
            if ch == 34 {
                self.current = self.current + 1;
                return self.make_token(TokenKind::String);
            }
            if ch == 10 {
                self.count_line();
                self.current = self.current + 1;
            } else {
                self.current = self.current + 1;
            }
        }
        self.error_token("Unterminated string.")
    }
}

} // verus!
