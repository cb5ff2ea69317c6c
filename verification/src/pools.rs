//! The fixed pools that the random inputs are drawn from.
use vstd::prelude::*;

verus! {
/// The number of entries in the pool of `plain_line`.
pub const LINES: u64 = 18;
/// A line of the ordinary sources.
pub open spec fn plain_line_spec(k: int) -> Seq<char> {
    if k == 0 {
        "fn main() {"@
    } else if k == 1 {
        "    let x = 5;"@
    } else if k == 2 {
        "\tlet y = x + 1;"@
    } else if k == 3 {
        "\t\tif a\t{ b }"@
    } else if k == 4 {
        "}"@
    } else if k == 5 {
        ""@
    } else if k == 6 {
        "   "@
    } else if k == 7 {
        "let s = \"日本語テキスト\";"@
    } else if k == 8 {
        "emoji 😀 and 👨‍👩‍👧 here"@
    } else if k == 9 {
        "e\u{301}le\u{300}ve"@
    } else if k == 10 {
        "trailing spaces   "@
    } else if k == 11 {
        "a\u{7}bell"@
    } else if k == 12 {
        "zero\u{200B}width"@
    } else if k == 13 {
        "wide\u{3000}space"@
    } else if k == 14 {
        "nbsp\u{A0}x"@
    } else if k == 15 {
        "x"@
    } else if k == 16 {
        "match value { Some(v) => v, None => 0 }"@
    } else {
        "│ box ─ chars ┼"@
    }
}

/// A line of the ordinary sources.
pub fn plain_line(k: u64) -> (r: &'static str)
    requires
        k < LINES,
    ensures
        r@ == plain_line_spec(k as int),
{
    match k {
        0 => "fn main() {",
        1 => "    let x = 5;",
        2 => "\tlet y = x + 1;",
        3 => "\t\tif a\t{ b }",
        4 => "}",
        5 => "",
        6 => "   ",
        7 => "let s = \"日本語テキスト\";",
        8 => "emoji 😀 and 👨‍👩‍👧 here",
        9 => "e\u{301}le\u{300}ve",
        10 => "trailing spaces   ",
        11 => "a\u{7}bell",
        12 => "zero\u{200B}width",
        13 => "wide\u{3000}space",
        14 => "nbsp\u{A0}x",
        15 => "x",
        16 => "match value { Some(v) => v, None => 0 }",
        _ => "│ box ─ chars ┼",
    }
}

/// The number of entries in the pool of `separator`.
pub const SEPARATORS: u64 = 13;
/// A line terminator: mostly `\n`, and each of the others.
pub open spec fn separator_spec(k: int) -> Seq<char> {
    if k == 0 {
        "\n"@
    } else if k == 1 {
        "\n"@
    } else if k == 2 {
        "\n"@
    } else if k == 3 {
        "\n"@
    } else if k == 4 {
        "\n"@
    } else if k == 5 {
        "\n"@
    } else if k == 6 {
        "\r\n"@
    } else if k == 7 {
        "\r"@
    } else if k == 8 {
        "\u{B}"@
    } else if k == 9 {
        "\u{C}"@
    } else if k == 10 {
        "\u{85}"@
    } else if k == 11 {
        "\u{2028}"@
    } else {
        "\u{2029}"@
    }
}

/// Whether `t` is one of the line terminators in the pool.
pub open spec fn in_separator_pool(t: Seq<char>) -> bool {
    exists|k: int| 0 <= k < SEPARATORS && #[trigger] separator_spec(k) == t
}

/// Every line terminator is in the pool: `\n`, `\r\n`, `\r`, vertical tab,
/// form feed, next line, line separator and paragraph separator.
pub proof fn lemma_every_terminator_in_pool()
    ensures
        in_separator_pool("\n"@),
        in_separator_pool("\r\n"@),
        in_separator_pool("\r"@),
        in_separator_pool("\u{B}"@),
        in_separator_pool("\u{C}"@),
        in_separator_pool("\u{85}"@),
        in_separator_pool("\u{2028}"@),
        in_separator_pool("\u{2029}"@),
{
    assert(separator_spec(0) == "\n"@);
    assert(separator_spec(6) == "\r\n"@);
    assert(separator_spec(7) == "\r"@);
    assert(separator_spec(8) == "\u{B}"@);
    assert(separator_spec(9) == "\u{C}"@);
    assert(separator_spec(10) == "\u{85}"@);
    assert(separator_spec(11) == "\u{2028}"@);
    assert(separator_spec(12) == "\u{2029}"@);
}

/// A line terminator: mostly `\n`, and each of the others.
pub fn separator(k: u64) -> (r: &'static str)
    requires
        k < SEPARATORS,
    ensures
        r@ == separator_spec(k as int),
{
    match k {
        0 => "\n",
        1 => "\n",
        2 => "\n",
        3 => "\n",
        4 => "\n",
        5 => "\n",
        6 => "\r\n",
        7 => "\r",
        8 => "\u{B}",
        9 => "\u{C}",
        10 => "\u{85}",
        11 => "\u{2028}",
        _ => "\u{2029}",
    }
}

/// The number of entries in the pool of `dense_line`.
pub const DENSE_LINES: u64 = 6;
/// A short line of wide characters and tabs, where labels crowd together.
pub open spec fn dense_line_spec(k: int) -> Seq<char> {
    if k == 0 {
        "日本語\t日本語"@
    } else if k == 1 {
        "\t\tx = y"@
    } else if k == 2 {
        "テキスト テキスト"@
    } else if k == 3 {
        "ab日c"@
    } else if k == 4 {
        "x"@
    } else {
        "fn f(a: 日) {"@
    }
}

/// A short line of wide characters and tabs, where labels crowd together.
pub fn dense_line(k: u64) -> (r: &'static str)
    requires
        k < DENSE_LINES,
    ensures
        r@ == dense_line_spec(k as int),
{
    match k {
        0 => "日本語\t日本語",
        1 => "\t\tx = y",
        2 => "テキスト テキスト",
        3 => "ab日c",
        4 => "x",
        _ => "fn f(a: 日) {",
    }
}

/// The number of entries in the pool of `message`.
pub const MESSAGES: u64 = 12;
/// A message for a report, a label, a note or a help.
pub open spec fn message_spec(k: int) -> Seq<char> {
    if k == 0 {
        "expected `i32`"@
    } else if k == 1 {
        "this is found to be of type `String`"@
    } else if k == 2 {
        ""@
    } else if k == 3 {
        "日本語のメッセージ"@
    } else if k == 4 {
        "first line\nsecond line"@
    } else if k == 5 {
        "carriage\r\nreturn"@
    } else if k == 6 {
        "ends with newline\n"@
    } else if k == 7 {
        "\n"@
    } else if k == 8 {
        "a\n\nb"@
    } else if k == 9 {
        "tab\there"@
    } else if k == 10 {
        "emoji 😀"@
    } else {
        "x"@
    }
}

/// A message for a report, a label, a note or a help.
pub fn message(k: u64) -> (r: &'static str)
    requires
        k < MESSAGES,
    ensures
        r@ == message_spec(k as int),
{
    match k {
        0 => "expected `i32`",
        1 => "this is found to be of type `String`",
        2 => "",
        3 => "日本語のメッセージ",
        4 => "first line\nsecond line",
        5 => "carriage\r\nreturn",
        6 => "ends with newline\n",
        7 => "\n",
        8 => "a\n\nb",
        9 => "tab\there",
        10 => "emoji 😀",
        _ => "x",
    }
}

/// The number of entries in the pool of `code`.
pub const CODES: u64 = 7;
/// A code for a report.
pub open spec fn code_spec(k: int) -> Seq<char> {
    if k == 0 {
        "E0308"@
    } else if k == 1 {
        ""@
    } else if k == 2 {
        "é"@
    } else if k == 3 {
        "x"@
    } else if k == 4 {
        "3"@
    } else if k == 5 {
        "W12"@
    } else {
        "日"@
    }
}

/// A code for a report.
pub fn code(k: u64) -> (r: &'static str)
    requires
        k < CODES,
    ensures
        r@ == code_spec(k as int),
{
    match k {
        0 => "E0308",
        1 => "",
        2 => "é",
        3 => "x",
        4 => "3",
        5 => "W12",
        _ => "日",
    }
}

/// The number of entries in the pool of `kind_name`.
pub const NAMES: u64 = 4;
/// A name for a report of a custom kind.
pub open spec fn kind_name_spec(k: int) -> Seq<char> {
    if k == 0 {
        "Bug"@
    } else if k == 1 {
        ""@
    } else if k == 2 {
        "Lint"@
    } else {
        "注意"@
    }
}

/// A name for a report of a custom kind.
pub fn kind_name(k: u64) -> (r: &'static str)
    requires
        k < NAMES,
    ensures
        r@ == kind_name_spec(k as int),
{
    match k {
        0 => "Bug",
        1 => "",
        2 => "Lint",
        _ => "注意",
    }
}

/// Every entry of every pool is at most 40 characters long.
pub proof fn lemma_pools_short()
    ensures
        forall|k: int| 0 <= k < LINES ==> #[trigger] plain_line_spec(k).len() <= 40,
        forall|k: int| 0 <= k < SEPARATORS ==> #[trigger] separator_spec(k).len() <= 40,
        forall|k: int| 0 <= k < DENSE_LINES ==> #[trigger] dense_line_spec(k).len() <= 40,
        forall|k: int| 0 <= k < MESSAGES ==> #[trigger] message_spec(k).len() <= 40,
        forall|k: int| 0 <= k < CODES ==> #[trigger] code_spec(k).len() <= 40,
        forall|k: int| 0 <= k < NAMES ==> #[trigger] kind_name_spec(k).len() <= 40,
{
    reveal_strlit("fn main() {");
    reveal_strlit("    let x = 5;");
    reveal_strlit("\tlet y = x + 1;");
    reveal_strlit("\t\tif a\t{ b }");
    reveal_strlit("}");
    reveal_strlit("");
    reveal_strlit("   ");
    reveal_strlit("let s = \"日本語テキスト\";");
    reveal_strlit("emoji 😀 and 👨‍👩‍👧 here");
    reveal_strlit("e\u{301}le\u{300}ve");
    reveal_strlit("trailing spaces   ");
    reveal_strlit("a\u{7}bell");
    reveal_strlit("zero\u{200B}width");
    reveal_strlit("wide\u{3000}space");
    reveal_strlit("nbsp\u{A0}x");
    reveal_strlit("x");
    reveal_strlit("match value { Some(v) => v, None => 0 }");
    reveal_strlit("│ box ─ chars ┼");
    reveal_strlit("\n");
    reveal_strlit("\r\n");
    reveal_strlit("\r");
    reveal_strlit("\u{B}");
    reveal_strlit("\u{C}");
    reveal_strlit("\u{85}");
    reveal_strlit("\u{2028}");
    reveal_strlit("\u{2029}");
    reveal_strlit("日本語\t日本語");
    reveal_strlit("\t\tx = y");
    reveal_strlit("テキスト テキスト");
    reveal_strlit("ab日c");
    reveal_strlit("fn f(a: 日) {");
    reveal_strlit("expected `i32`");
    reveal_strlit("this is found to be of type `String`");
    reveal_strlit("日本語のメッセージ");
    reveal_strlit("first line\nsecond line");
    reveal_strlit("carriage\r\nreturn");
    reveal_strlit("ends with newline\n");
    reveal_strlit("a\n\nb");
    reveal_strlit("tab\there");
    reveal_strlit("emoji 😀");
    reveal_strlit("E0308");
    reveal_strlit("é");
    reveal_strlit("3");
    reveal_strlit("W12");
    reveal_strlit("日");
    reveal_strlit("Bug");
    reveal_strlit("Lint");
    reveal_strlit("注意");
}

/// A line terminator is one or two characters long.
pub proof fn lemma_separators_short()
    ensures
        forall|k: int| 0 <= k < SEPARATORS ==> #[trigger] separator_spec(k).len() <= 2,
{
    reveal_strlit("\n");
    reveal_strlit("\r\n");
    reveal_strlit("\r");
    reveal_strlit("\u{B}");
    reveal_strlit("\u{C}");
    reveal_strlit("\u{85}");
    reveal_strlit("\u{2028}");
    reveal_strlit("\u{2029}");
}

} // verus!
