//! What holds of every loot notification that is written after the
//! template: reading it gives back what was written.

use crate::dink::{
    item_marker, link_marker, loot_of_line, looted_marker, loots_of, parsed_loot, quantity_of,
    source_marker, source_of, source_of_line, DropEvent, ParseError, MAX_USER_CHARS,
};
use crate::text::{
    all_digits, before_first, contains, decimal, first_index_of, is_digit, lemma_chars_occur,
    lemma_decimal, lemma_first_index_is, lemma_first_index_none, lemma_first_index_of,
    lemma_occurs_char, lemma_occurs_chars, lemma_parse_decimal, lemma_split_at_first, lemma_split_none,
    line_pieces, occurs_at, split_on, starts_with,
};
use vstd::prelude::*;

verus! {

/// One line of a notification that reports an item: the item with its
/// quantity, the address it links to, and its value as it is shown.
pub ghost struct LootLine {
    pub name: Seq<char>,
    pub quantity: u32,
    pub url: Seq<char>,
    pub value: Seq<char>,
}

/// Whether `s` holds no line feed.
pub open spec fn one_line(s: Seq<char>) -> bool {
    forall|i: int| 0 <= i < s.len() ==> s[i] != '\n'
}

/// The line that reports `line`: the quantity, the name in square brackets,
/// the address and the value in round brackets.
pub open spec fn loot_line(line: LootLine) -> Seq<char> {
    decimal(line.quantity as nat) + item_marker() + line.name + link_marker() + line.url
        + seq![')', ' ', '('] + line.value + seq![')']
}

/// The line that names the source `source`, which links to `url`.
pub open spec fn source_line(source: Seq<char>, url: Seq<char>) -> Seq<char> {
    source_marker() + source + link_marker() + url + seq![')']
}

/// The lines that report `lines`, each ended by a line feed, and then
/// `last`.
pub open spec fn body(lines: Seq<LootLine>, last: Seq<char>) -> Seq<char>
    decreases lines.len(),
{
    if lines.len() == 0 {
        last
    } else {
        loot_line(lines[0]) + seq!['\n'] + body(lines.drop_first(), last)
    }
}

/// The notification that `user` looted what `lines` report from `source`:
/// the user and the marker, an empty line, one line for each item, and the
/// line of the source.
pub open spec fn notification(
    user: Seq<char>,
    lines: Seq<LootLine>,
    source: Seq<char>,
    source_url: Seq<char>,
) -> Seq<char> {
    user + looted_marker() + seq![' ', '\n', '\n'] + body(lines, source_line(source, source_url))
}

/// The items that `lines` report, with their quantities.
pub open spec fn loots_shown(lines: Seq<LootLine>) -> Seq<(Seq<char>, u32)> {
    Seq::new(lines.len(), |i: int| (lines[i].name, lines[i].quantity))
}

/// The texts of the lines that report `lines`.
pub open spec fn line_texts(lines: Seq<LootLine>) -> Seq<Seq<char>> {
    Seq::new(lines.len(), |i: int| loot_line(lines[i]))
}

/// Whether `line` can be written on one line and read back: neither its
/// name nor its address nor its value holds a line feed, and the name does
/// not hold the link marker.
pub open spec fn writable(line: LootLine) -> bool {
    &&& one_line(line.name)
    &&& one_line(line.url)
    &&& one_line(line.value)
    &&& !contains(line.name, link_marker())
}

/// The lines that the user `user` and the marker behind it make up.
pub open spec fn user_lines(user: Seq<char>) -> Seq<Seq<char>> {
    split_on(user + looted_marker() + seq![' '], '\n')
}

/// The markers, character by character.
pub proof fn lemma_markers()
    ensures
        item_marker() == seq![' ', 'x', ' ', '['],
        link_marker() == seq![']', '('],
        source_marker() == seq!['F', 'r', 'o', 'm', ':', ' ', '['],
        looted_marker() == seq![' ', 'h', 'a', 's', ' ', 'l', 'o', 'o', 't', 'e', 'd', ':'],
{
    reveal_strlit(" x [");
    reveal_strlit("](");
    reveal_strlit("From: [");
    reveal_strlit(" has looted:");
    assert(item_marker() =~= seq![' ', 'x', ' ', '[']);
    assert(link_marker() =~= seq![']', '(']);
    assert(source_marker() =~= seq!['F', 'r', 'o', 'm', ':', ' ', '[']);
    assert(looted_marker() =~= seq![' ', 'h', 'a', 's', ' ', 'l', 'o', 'o', 't', 'e', 'd', ':']);
}

/// Where `pat` stands nowhere in `s`, it stands at no position.
proof fn lemma_absent(s: Seq<char>, pat: Seq<char>)
    requires
        !contains(s, pat),
    ensures
        forall|j: int| !occurs_at(s, pat, j),
{
    lemma_first_index_of(s, pat);
}

/// The name of `s + link + rest` up to the link marker is `s`, where `s`
/// does not hold the marker.
proof fn lemma_before_link(s: Seq<char>, rest: Seq<char>)
    requires
        !contains(s, link_marker()),
    ensures
        first_index_of(s + link_marker() + rest, link_marker()) == Some(s.len() as int),
        before_first(s + link_marker() + rest, link_marker()) == s,
        (s + link_marker() + rest).take(s.len() as int) == s,
{
    lemma_markers();
    lemma_absent(s, link_marker());
    let link = link_marker();
    let t = s + link + rest;
    let n = s.len() as int;
    assert(t[n] == ']');
    assert(t[n + 1] == '(');
    assert forall|k: int| 0 <= k < link.len() implies t[n + k] == #[trigger] link[k] by {}
    lemma_chars_occur(t, link, n);
    assert forall|j: int| 0 <= j < n implies !occurs_at(t, link, j) by {
        if occurs_at(t, link, j) {
            lemma_occurs_chars(t, link, j);
            assert(t[j + 0] == link[0]);
            assert(t[j + 1] == link[1]);
            if j + 1 < n {
                assert(s[j] == t[j]);
                assert(s[j + 1] == t[j + 1]);
                assert forall|k: int| 0 <= k < link.len() implies s[j + k] == #[trigger] link[k] by {}
                lemma_chars_occur(s, link, j);
            }
        }
    }
    lemma_first_index_is(t, link, n);
    assert(t.take(n) =~= s);
}

/// A line that reports an item is read as that item with its quantity, and
/// as no source.
pub proof fn lemma_loot_line(line: LootLine)
    requires
        !contains(line.name, link_marker()),
    ensures
        loot_of_line(loot_line(line)) == Some((line.name, line.quantity)),
        source_of_line(loot_line(line)) is None,
        loot_line(line).len() > 0,
{
    lemma_markers();
    lemma_decimal(line.quantity as nat);
    lemma_parse_decimal(line.quantity);
    let digits = decimal(line.quantity as nat);
    let marker = item_marker();
    let tail = line.url + seq![')', ' ', '('] + line.value + seq![')'];
    let rest = line.name + link_marker() + tail;
    let t = loot_line(line);
    let d = digits.len() as int;
    assert(t =~= digits + marker + rest);
    assert(t[0] == digits[0]);
    assert(is_digit(digits[0]));
    assert forall|k: int| 0 <= k < marker.len() implies t[d + k] == #[trigger] marker[k] by {}
    lemma_chars_occur(t, marker, d);
    assert forall|j: int| 0 <= j < d implies !occurs_at(t, marker, j) by {
        if occurs_at(t, marker, j) {
            lemma_occurs_chars(t, marker, j);
            assert(t[j + 0] == marker[0]);
            assert(t[j] == digits[j]);
            assert(is_digit(digits[j]));
        }
    }
    lemma_first_index_is(t, marker, d);
    assert(t.take(d) =~= digits);
    assert(t.skip(d + marker.len()) =~= rest);
    lemma_before_link(line.name, tail);
    assert(quantity_of(digits) == line.quantity);
    assert(digits.len() > 0 && all_digits(digits));
    if starts_with(t, source_marker()) {
        lemma_occurs_chars(t, source_marker(), 0);
        assert(t[0int + 0] == source_marker()[0]);
    }
}

/// The line of the source is read as that source, and as no item.
pub proof fn lemma_source_line(source: Seq<char>, url: Seq<char>)
    requires
        !contains(source, link_marker()),
        !contains(source, item_marker()),
        !contains(url, item_marker()),
    ensures
        loot_of_line(source_line(source, url)) is None,
        source_of_line(source_line(source, url)) == Some(source),
        source_line(source, url).len() > 0,
{
    lemma_markers();
    let from = source_marker();
    let marker = item_marker();
    let link = link_marker();
    let t = source_line(source, url);
    let a = from.len() as int;
    let b = a + source.len();
    let c = b + 2;
    let e = c + url.len();
    assert(t.len() == e + 1);
    assert forall|k: int| 0 <= k < from.len() implies t[0int + k] == #[trigger] from[k] by {}
    lemma_chars_occur(t, from, 0);
    assert(t.skip(a) =~= source + link + (url + seq![')']));
    lemma_before_link(source, url + seq![')']);
    lemma_absent(source, marker);
    lemma_absent(url, marker);
    assert forall|j: int| 0 <= j && j + marker.len() <= t.len() implies !occurs_at(t, marker, j) by {
        if occurs_at(t, marker, j) {
            lemma_occurs_chars(t, marker, j);
            assert(t[j + 0] == marker[0]);
            assert(t[j + 1] == marker[1]);
            assert(t[j + 2] == marker[2]);
            assert(t[j + 3] == marker[3]);
            assert(t[b] == ']');
            assert(t[b + 1] == '(');
            assert(t[e] == ')');
            if j < a {
                assert(t[j] == from[j]);
                assert(t[j + 1] == from[j + 1] || j + 1 >= a);
            } else if j + 4 <= b {
                assert forall|k: int| 0 <= k < marker.len() implies source[j - a + k]
                    == #[trigger] marker[k] by {
                    assert(source[j - a + k] == t[j + k]);
                }
                lemma_chars_occur(source, marker, j - a);
            } else if j < c {
            } else if j + 4 <= e {
                assert forall|k: int| 0 <= k < marker.len() implies url[j - c + k]
                    == #[trigger] marker[k] by {
                    assert(url[j - c + k] == t[j + k]);
                }
                lemma_chars_occur(url, marker, j - c);
            } else {
            }
        }
    }
    lemma_first_index_none(t, marker);
}

/// A text that holds no item marker is read as no item.
proof fn lemma_no_marker_no_loot(line: Seq<char>)
    requires
        !contains(line, item_marker()),
    ensures
        loot_of_line(line) is None,
{
}

/// The lines of a user that holds neither line feed nor item marker report
/// no item.
pub proof fn lemma_plain_user(user: Seq<char>)
    requires
        one_line(user),
        !contains(user, item_marker()),
    ensures
        loots_of(user_lines(user)).len() == 0,
{
    lemma_markers();
    let marker = item_marker();
    let t = user + looted_marker() + seq![' '];
    let n = user.len() as int;
    lemma_absent(user, marker);
    assert forall|j: int| 0 <= j && j + marker.len() <= t.len() implies !occurs_at(t, marker, j) by {
        if occurs_at(t, marker, j) {
            lemma_occurs_chars(t, marker, j);
            assert(t[j + 0] == marker[0]);
            assert(t[j + 1] == marker[1]);
            assert(t[j + 2] == marker[2]);
            assert(t[j + 3] == marker[3]);
            if j + 4 <= n {
                assert forall|k: int| 0 <= k < marker.len() implies user[j + k]
                    == #[trigger] marker[k] by {
                    assert(user[j + k] == t[j + k]);
                }
                lemma_chars_occur(user, marker, j);
            } else {
                assert(t[n] == ' ');
                assert(t[n + 1] == 'h');
                assert(forall|k: int| 0 <= k < 12 ==> t[n + k] == looted_marker()[k]);
            }
        }
    }
    lemma_first_index_none(t, marker);
    lemma_no_marker_no_loot(t);
    assert(one_line(t)) by {
        assert forall|i: int| 0 <= i < t.len() implies t[i] != '\n' by {
            if i < n {
                assert(t[i] == user[i]);
            } else if i < n + 12 {
                assert(t[i] == looted_marker()[i - n]);
            } else {
                assert(t[i] == ' ');
            }
        }
    }
    lemma_split_none(t, '\n');
    let only = seq![t];
    assert(only.drop_last() =~= Seq::<Seq<char>>::empty());
    assert(loots_of(only.drop_last()) =~= Seq::<(Seq<char>, u32)>::empty());
    assert(only.last() == t);
}

/// The character at `k` of the middle of three texts.
proof fn lemma_middle_index(first: Seq<char>, middle: Seq<char>, last: Seq<char>, k: int)
    requires
        0 <= k < middle.len(),
    ensures
        (first + middle + last)[first.len() + k] == middle[k],
{
}

/// The looted marker has twelve characters; its first character comes
/// again only at position 4, and what follows there is not what follows the
/// first.
proof fn lemma_looted_marker_border(k: int)
    ensures
        looted_marker().len() == 12,
        0 < k < 12 && looted_marker()[k] == looted_marker()[0] ==> k == 4,
        looted_marker()[5] != looted_marker()[1],
{
    lemma_markers();
}

/// The first marker of a notification stands right behind the user.
pub proof fn lemma_first_marker(user: Seq<char>, rest: Seq<char>)
    requires
        !contains(user, looted_marker()),
    ensures
        first_index_of(user + looted_marker() + rest, looted_marker()) == Some(user.len() as int),
{
    lemma_looted_marker_border(0);
    let marker = looted_marker();
    let t = user + marker + rest;
    let n = user.len() as int;
    lemma_absent(user, marker);
    assert forall|k: int| 0 <= k < marker.len() implies t[n + k] == #[trigger] marker[k] by {
        lemma_middle_index(user, marker, rest, k);
    }
    lemma_chars_occur(t, marker, n);
    assert forall|j: int| 0 <= j < n implies !occurs_at(t, marker, j) by {
        if occurs_at(t, marker, j) {
            lemma_occurs_chars(t, marker, j);
            if j + 12 <= n {
                assert forall|k: int| 0 <= k < marker.len() implies user[j + k]
                    == #[trigger] marker[k] by {
                    assert(user[j + k] == t[j + k]);
                }
                lemma_chars_occur(user, marker, j);
            } else {
                let k = n - j;
                assert(t[j + k] == marker[k]);
                lemma_middle_index(user, marker, rest, 0);
                lemma_middle_index(user, marker, rest, 1);
                assert(marker[k] == marker[0]);
                lemma_looted_marker_border(k);
                assert(k == 4);
                assert(t[j + 5] == marker[5]);
            }
        }
    }
    lemma_first_index_is(t, marker, n);
}

/// The pieces of a text that begins with a line are that line and the
/// pieces of what follows its line feed.
proof fn lemma_split_first_line(first: Seq<char>, rest: Seq<char>)
    requires
        one_line(first),
    ensures
        split_on(first + seq!['\n'] + rest, '\n') == seq![first] + split_on(rest, '\n'),
{
    let t = first + seq!['\n'] + rest;
    let n = first.len() as int;
    assert(t[n] == '\n');
    assert forall|j: int| 0 <= j < n implies t[j] != '\n' by {
        assert(t[j] == first[j]);
    }
    lemma_split_at_first(t, '\n', n);
    assert(t.take(n) =~= first);
    assert(t.skip(n + 1) =~= rest);
}

/// The pieces of two texts with a separator between them are the pieces of
/// the first and then the pieces of the second.
proof fn lemma_split_concat(first: Seq<char>, second: Seq<char>, sep: char)
    ensures
        split_on(first + seq![sep] + second, sep) == split_on(first, sep) + split_on(second, sep),
    decreases first.len(),
{
    let t = first + seq![sep] + second;
    lemma_first_index_of(first, seq![sep]);
    match first_index_of(first, seq![sep]) {
        Some(k) => {
            lemma_occurs_char(first, sep, k);
            assert forall|j: int| 0 <= j < k implies first[j] != sep by {
                lemma_occurs_char(first, sep, j);
            }
            assert(t[k] == sep);
            assert forall|j: int| 0 <= j < k implies t[j] != sep by {
                assert(t[j] == first[j]);
            }
            lemma_split_at_first(t, sep, k);
            lemma_split_at_first(first, sep, k);
            assert(t.take(k) =~= first.take(k));
            assert(t.skip(k + 1) =~= first.skip(k + 1) + seq![sep] + second);
            lemma_split_concat(first.skip(k + 1), second, sep);
            assert(seq![first.take(k)] + (split_on(first.skip(k + 1), sep) + split_on(second, sep))
                =~= seq![first.take(k)] + split_on(first.skip(k + 1), sep) + split_on(second, sep));
        },
        None => {
            let n = first.len() as int;
            assert forall|j: int| 0 <= j < n implies first[j] != sep by {
                lemma_occurs_char(first, sep, j);
            }
            assert(t[n] == sep);
            assert forall|j: int| 0 <= j < n implies t[j] != sep by {
                assert(t[j] == first[j]);
            }
            lemma_split_at_first(t, sep, n);
            lemma_split_none(first, sep);
            assert(t.take(n) =~= first);
            assert(t.skip(n + 1) =~= second);
        },
    }
}

/// A line that reports a writable item holds no line feed.
proof fn lemma_loot_line_is_one_line(line: LootLine)
    requires
        writable(line),
    ensures
        one_line(loot_line(line)),
{
    lemma_markers();
    lemma_decimal(line.quantity as nat);
    let digits = decimal(line.quantity as nat);
    let t = loot_line(line);
    let a = digits.len() as int;
    let b = a + 4;
    let c = b + line.name.len();
    let d = c + 2;
    let e = d + line.url.len();
    let f = e + 3;
    let g = f + line.value.len();
    assert(t.len() == g + 1);
    assert forall|i: int| 0 <= i < t.len() implies t[i] != '\n' by {
        if i < a {
            assert(t[i] == digits[i]);
            assert(is_digit(digits[i]));
        } else if i < b {
            assert(t[i] == item_marker()[i - a]);
        } else if i < c {
            assert(t[i] == line.name[i - b]);
        } else if i < d {
            assert(t[i] == link_marker()[i - c]);
        } else if i < e {
            assert(t[i] == line.url[i - d]);
        } else if i < f {
            assert(t[i] == seq![')', ' ', '('][i - e]);
        } else if i < g {
            assert(t[i] == line.value[i - f]);
        } else {
            assert(t[i] == ')');
        }
    }
}

/// The pieces of the lines that report items, followed by a last line, are
/// those lines and the last.
proof fn lemma_split_body(lines: Seq<LootLine>, last: Seq<char>)
    requires
        forall|i: int| 0 <= i < lines.len() ==> writable(#[trigger] lines[i]),
        one_line(last),
    ensures
        split_on(body(lines, last), '\n') == line_texts(lines) + seq![last],
    decreases lines.len(),
{
    if lines.len() == 0 {
        lemma_split_none(last, '\n');
        assert(line_texts(lines) + seq![last] =~= seq![last]);
    } else {
        let rest = lines.drop_first();
        assert forall|i: int| 0 <= i < rest.len() implies writable(#[trigger] rest[i]) by {
            assert(rest[i] == lines[i + 1]);
        }
        lemma_split_body(rest, last);
        lemma_loot_line_is_one_line(lines[0]);
        lemma_split_first_line(loot_line(lines[0]), body(rest, last));
        assert(seq![loot_line(lines[0])] + (line_texts(rest) + seq![last]) =~= line_texts(lines)
            + seq![last]);
    }
}

/// Lines that report items, read after other lines, add their items to
/// those of the other lines.
proof fn lemma_loots_of_lines(before: Seq<Seq<char>>, lines: Seq<LootLine>)
    requires
        forall|i: int| 0 <= i < lines.len() ==> writable(#[trigger] lines[i]),
    ensures
        loots_of(before + line_texts(lines)) == loots_of(before) + loots_shown(lines),
    decreases lines.len(),
{
    if lines.len() == 0 {
        assert(before + line_texts(lines) =~= before);
        assert(loots_of(before) + loots_shown(lines) =~= loots_of(before));
    } else {
        let front = lines.drop_last();
        assert forall|i: int| 0 <= i < front.len() implies writable(#[trigger] front[i]) by {
            assert(front[i] == lines[i]);
        }
        lemma_loots_of_lines(before, front);
        lemma_loot_line(lines.last());
        let all = before + line_texts(lines);
        assert(all.drop_last() =~= before + line_texts(front));
        assert(all.last() == loot_line(lines.last()));
        assert((loots_of(before) + loots_shown(front)).push(
            (lines.last().name, lines.last().quantity),
        ) =~= loots_of(before) + loots_shown(lines));
    }
}

/// A line of digits, the item marker, a name, the link marker and what
/// follows.
pub open spec fn shaped(digits: Seq<char>, name: Seq<char>, rest: Seq<char>) -> Seq<char> {
    digits + item_marker() + name + link_marker() + rest
}

/// Whether `line` has the shape of a line that reports an item: one digit
/// or more, the item marker, a name, the link marker, and anything behind it.
pub open spec fn has_item_shape(line: Seq<char>) -> bool {
    exists|digits: Seq<char>, name: Seq<char>, rest: Seq<char>|
        digits.len() > 0 && all_digits(digits) && line == #[trigger] shaped(digits, name, rest)
}

/// A line that reports an item has the shape of such a line: its digits
/// stand before the first item marker and write the quantity, and its name
/// stands between that marker and the next link marker.
pub proof fn law_item_lines_have_the_shape(line: Seq<char>)
    requires
        loot_of_line(line) is Some,
    ensures
        has_item_shape(line),
        loot_of_line(line) matches Some((name, quantity)) && first_index_of(
            line,
            item_marker(),
        ) matches Some(i) && exists|rest: Seq<char>|
            line == #[trigger] shaped(line.take(i), name, rest) && quantity == quantity_of(
                line.take(i),
            ),
{
    lemma_markers();
    let marker = item_marker();
    let link = link_marker();
    lemma_first_index_of(line, marker);
    let i = first_index_of(line, marker)->0;
    let digits = line.take(i);
    let behind = line.skip(i + marker.len());
    lemma_first_index_of(behind, link);
    let j = first_index_of(behind, link)->0;
    let name = behind.take(j);
    let rest = behind.skip(j + link.len());
    assert(behind =~= name + link + rest) by {
        assert(behind.subrange(j, j + link.len()) =~= link);
    }
    assert(line =~= digits + marker + behind) by {
        assert(line.subrange(i, i + marker.len()) =~= marker);
    }
    assert(line =~= shaped(digits, name, rest));
    let loot = loot_of_line(line)->0;
    assert(line == shaped(line.take(i), loot.0, rest) && loot.1 == quantity_of(line.take(i)));
}

/// A line of the shape of a line that reports an item reports one.
pub proof fn law_shaped_lines_are_item_lines(line: Seq<char>)
    requires
        has_item_shape(line),
    ensures
        loot_of_line(line) is Some,
{
    lemma_markers();
    let marker = item_marker();
    let link = link_marker();
    let (digits, name, rest) = choose|digits: Seq<char>, name: Seq<char>, rest: Seq<char>|
        digits.len() > 0 && all_digits(digits) && line == #[trigger] shaped(digits, name, rest);
    let d = digits.len() as int;
    let behind = name + link + rest;
    assert(line =~= digits + marker + behind);
    assert forall|k: int| 0 <= k < marker.len() implies line[d + k] == #[trigger] marker[k] by {}
    lemma_chars_occur(line, marker, d);
    assert forall|j: int| 0 <= j < d implies !occurs_at(line, marker, j) by {
        if occurs_at(line, marker, j) {
            lemma_occurs_chars(line, marker, j);
            assert(line[j + 0] == marker[0]);
            assert(line[j] == digits[j]);
            assert(is_digit(digits[j]));
        }
    }
    lemma_first_index_is(line, marker, d);
    assert(line.take(d) =~= digits);
    assert(line.skip(d + marker.len()) =~= behind);
    let n = name.len() as int;
    assert forall|k: int| 0 <= k < link.len() implies behind[n + k] == #[trigger] link[k] by {}
    lemma_chars_occur(behind, link, n);
    lemma_first_index_of(behind, link);
}

/// Lines report no item exactly where none of them has the shape of a line
/// that reports one.
pub proof fn law_items_come_from_shaped_lines(lines: Seq<Seq<char>>)
    ensures
        loots_of(lines).len() == 0 <==> forall|i: int|
            0 <= i < lines.len() ==> !has_item_shape(#[trigger] lines[i]),
    decreases lines.len(),
{
    if lines.len() > 0 {
        let front = lines.drop_last();
        law_items_come_from_shaped_lines(front);
        if loot_of_line(lines.last()) is Some {
            law_item_lines_have_the_shape(lines.last());
        }
        if has_item_shape(lines.last()) {
            law_shaped_lines_are_item_lines(lines.last());
        }
        assert forall|i: int| 0 <= i < front.len() implies front[i] == lines[i] by {}
        if forall|i: int| 0 <= i < lines.len() ==> !has_item_shape(#[trigger] lines[i]) {
            assert forall|i: int| 0 <= i < front.len() implies !has_item_shape(
                #[trigger] front[i],
            ) by {
                assert(front[i] == lines[i]);
            }
            assert(!has_item_shape(lines[lines.len() - 1]));
        }
        if loots_of(lines).len() == 0 {
            assert forall|i: int| 0 <= i < lines.len() implies !has_item_shape(
                #[trigger] lines[i],
            ) by {
                if i < front.len() {
                    assert(front[i] == lines[i]);
                }
            }
        }
    }
}

/// What reading a text gives, case by case. A text without the looted
/// marker has no user. Else the user is all that stands before the first
/// marker, and the text is refused exactly where the user has more than
/// `MAX_USER_CHARS` characters, whatever its lines hold. Else the text reports
/// no item exactly where none of its lines has the shape of a line that
/// reports one. Every other text is read as a drop, with one item at least.
pub proof fn law_reading_outcomes(text: Seq<char>)
    ensures
        parsed_loot(text) == Err::<DropEvent, ParseError>(ParseError::NoUser) <==> !contains(
            text,
            looted_marker(),
        ),
        parsed_loot(text) == Err::<DropEvent, ParseError>(ParseError::UsernameTooLong) <==> (
        first_index_of(text, looted_marker()) matches Some(i) && i > MAX_USER_CHARS),
        parsed_loot(text) == Err::<DropEvent, ParseError>(ParseError::NoItems) <==> (first_index_of(
            text,
            looted_marker(),
        ) matches Some(i) && i <= MAX_USER_CHARS && forall|k: int|
            0 <= k < line_pieces(text).len() ==> !has_item_shape(#[trigger] line_pieces(text)[k])),
        parsed_loot(text) matches Ok(drop) ==> first_index_of(text, looted_marker()) matches Some(i)
            && drop.user == text.take(i) && drop.user.len() <= MAX_USER_CHARS && drop.loots.len()
            >= 1 && drop.loots == loots_of(line_pieces(text)) && drop.source == source_of(
            line_pieces(text),
        ),
{
    lemma_first_index_of(text, looted_marker());
    law_items_come_from_shaped_lines(line_pieces(text));
}

/// A notification that is written after the template is read back as what
/// was written: the user, the source, and the items with their quantities,
/// in order.
///
/// The user is at most `MAX_USER_CHARS` characters long and does not hold
/// the looted marker, and its own lines report no item, as
/// `lemma_plain_user` shows of a user without line feed and item marker. There is at least one item. No name holds a line feed or
/// the link marker, and neither does the source, which does not hold the item
/// marker either. The addresses and values of the template are any that hold
/// no line feed; the address of the source does not hold the item marker.
pub proof fn law_notification_round_trip(
    user: Seq<char>,
    lines: Seq<LootLine>,
    source: Seq<char>,
    source_url: Seq<char>,
)
    requires
        user.len() <= MAX_USER_CHARS,
        !contains(user, looted_marker()),
        loots_of(user_lines(user)).len() == 0,
        lines.len() >= 1,
        forall|i: int| 0 <= i < lines.len() ==> writable(#[trigger] lines[i]),
        one_line(source),
        one_line(source_url),
        !contains(source, link_marker()),
        !contains(source, item_marker()),
        !contains(source_url, item_marker()),
    ensures
        parsed_loot(notification(user, lines, source, source_url)) == Ok::<DropEvent, ParseError>(
            DropEvent { user, source, loots: loots_shown(lines) },
        ),
{
    lemma_markers();
    let marker = looted_marker();
    let last = source_line(source, source_url);
    let text = notification(user, lines, source, source_url);
    let after_marker = seq![' ', '\n', '\n'] + body(lines, last);
    assert(text =~= user + marker + after_marker);
    lemma_first_marker(user, after_marker);
    assert(text.take(user.len() as int) =~= user);

    let first = user + marker + seq![' '];
    let nothing = Seq::<char>::empty();
    let rest = nothing + seq!['\n'] + body(lines, last);
    assert(text =~= first + seq!['\n'] + rest);
    lemma_split_concat(first, rest, '\n');
    lemma_split_first_line(nothing, body(lines, last));
    lemma_source_line(source, source_url);
    assert(one_line(last)) by {
        let a = source_marker().len() as int;
        let b = a + source.len();
        let c = b + 2;
        let e = c + source_url.len();
        assert forall|i: int| 0 <= i < last.len() implies last[i] != '\n' by {
            if i < a {
                assert(last[i] == source_marker()[i]);
            } else if i < b {
                assert(last[i] == source[i - a]);
            } else if i < c {
                assert(last[i] == link_marker()[i - b]);
            } else if i < e {
                assert(last[i] == source_url[i - c]);
            } else {
                assert(last[i] == ')');
            }
        }
    }
    lemma_split_body(lines, last);
    let before = user_lines(user) + seq![nothing];
    let pieces = split_on(text, '\n');
    assert(pieces =~= before + line_texts(lines) + seq![last]);
    assert(pieces.last() == last);
    assert(line_pieces(text) == pieces);

    assert(loots_of(before) =~= Seq::<(Seq<char>, u32)>::empty()) by {
        assert forall|j: int| 0 <= j && j + item_marker().len() <= nothing.len() implies !occurs_at(
            nothing,
            item_marker(),
            j,
        ) by {}
        lemma_first_index_none(nothing, item_marker());
        lemma_no_marker_no_loot(nothing);
        assert(before.drop_last() =~= user_lines(user));
        assert(before.last() == nothing);
    }
    lemma_loots_of_lines(before, lines);
    assert(pieces.drop_last() =~= before + line_texts(lines));
    assert(loots_of(pieces) =~= loots_shown(lines));
    assert(source_of(pieces) == source);
}

} // verus!
