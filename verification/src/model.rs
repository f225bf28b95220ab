//! The mathematical model of base64: what every encoder must produce.

use vstd::prelude::*;

verus! {

/// The byte `=` that pads the last quad of an encoding.
pub open spec fn pad_byte() -> u8 {
    61u8
}

/// The byte `\n` that separates lines of a wrapped encoding.
pub open spec fn newline_byte() -> u8 {
    10u8
}

/// First 6-bit value of the group `a b c`: the top six bits of `a`.
pub open spec fn sextet0(a: u8) -> u8 {
    a >> 2u8
}

/// Second 6-bit value: the low two bits of `a` and the top four of `b`.
pub open spec fn sextet1(a: u8, b: u8) -> u8 {
    ((a & 3u8) << 4u8) | (b >> 4u8)
}

/// Third 6-bit value: the low four bits of `b` and the top two of `c`.
pub open spec fn sextet2(b: u8, c: u8) -> u8 {
    ((b & 15u8) << 2u8) | (c >> 6u8)
}

/// Fourth 6-bit value: the low six bits of `c`.
pub open spec fn sextet3(c: u8) -> u8 {
    c & 63u8
}

/// The four characters that encode the group `a b c`.
pub open spec fn quad(alphabet: Seq<u8>, a: u8, b: u8, c: u8) -> Seq<u8> {
    seq![
        alphabet[sextet0(a) as int],
        alphabet[sextet1(a, b) as int],
        alphabet[sextet2(b, c) as int],
        alphabet[sextet3(c) as int],
    ]
}

/// The encoding of the `g`-th complete group of three bytes of `input`.
pub open spec fn group(input: Seq<u8>, alphabet: Seq<u8>, g: int) -> Seq<u8> {
    quad(alphabet, input[3 * g], input[3 * g + 1], input[3 * g + 2])
}

/// The encoding of the first `g` complete groups of `input`.
pub open spec fn blocks(input: Seq<u8>, alphabet: Seq<u8>, g: nat) -> Seq<u8>
    decreases g,
{
    if g == 0 {
        seq![]
    } else {
        blocks(input, alphabet, (g - 1) as nat) + group(input, alphabet, g - 1)
    }
}

/// The encoding of `count` complete groups of `input`, from group `start` on.
pub open spec fn blocks_from(input: Seq<u8>, alphabet: Seq<u8>, start: nat, count: nat) -> Seq<u8>
    decreases count,
{
    if count == 0 {
        seq![]
    } else {
        blocks_from(input, alphabet, start, (count - 1) as nat) + group(
            input,
            alphabet,
            start + count - 1,
        )
    }
}

/// The encoding of the one or two bytes of `input` that follow its last
/// complete group, padded with `=` to four characters when `padded`.
pub open spec fn tail(input: Seq<u8>, alphabet: Seq<u8>, padded: bool) -> Seq<u8> {
    let n = input.len();
    let i = n - n % 3;
    if n % 3 == 1 {
        seq![alphabet[sextet0(input[i]) as int], alphabet[sextet1(input[i], 0u8) as int]] + if padded {
            seq![pad_byte(), pad_byte()]
        } else {
            seq![]
        }
    } else if n % 3 == 2 {
        seq![
            alphabet[sextet0(input[i]) as int],
            alphabet[sextet1(input[i], input[i + 1]) as int],
            alphabet[sextet2(input[i + 1], 0u8) as int],
        ] + if padded {
            seq![pad_byte()]
        } else {
            seq![]
        }
    } else {
        seq![]
    }
}

/// The base64 encoding of `input` with the 64-character `alphabet`
/// (RFC 4648, section 4 with the standard alphabet).
pub open spec fn encoding(input: Seq<u8>, alphabet: Seq<u8>, padded: bool) -> Seq<u8> {
    blocks(input, alphabet, input.len() / 3) + tail(input, alphabet, padded)
}

/// The number of characters in the encoding of `n` bytes.
pub open spec fn encoding_len(n: nat, padded: bool) -> nat {
    if padded {
        if n % 3 == 0 {
            (n / 3 * 4) as nat
        } else {
            (n / 3 * 4 + 4) as nat
        }
    } else {
        if n % 3 == 0 {
            (n / 3 * 4) as nat
        } else {
            (n / 3 * 4 + n % 3 + 1) as nat
        }
    }
}

/// The line width that a `wrapcol` asks for: zero (no wrapping), or
/// `wrapcol` rounded down to a multiple of four, and at least four.
pub open spec fn line_width(wrapcol: nat) -> nat {
    if wrapcol == 0 {
        0
    } else if wrapcol < 4 {
        4
    } else {
        (wrapcol / 4 * 4) as nat
    }
}

/// `text` cut into lines of `width` characters joined by newlines; with a
/// width of zero the text stays whole.
pub open spec fn wrapped(text: Seq<u8>, width: nat) -> Seq<u8>
    decreases text.len(),
{
    if width == 0 || text.len() <= width {
        text
    } else {
        text.take(width as int) + seq![newline_byte()] + wrapped(text.skip(width as int), width)
    }
}

/// The length of `wrapped(text, width)` for a text of `len` characters.
pub open spec fn wrapped_len(len: nat, width: nat) -> nat {
    if width == 0 || len == 0 {
        len
    } else {
        (len + ((len - 1) as int) / (width as int)) as nat
    }
}

/// `g` groups encode to `4 * g` characters.
pub proof fn lemma_blocks_len(input: Seq<u8>, alphabet: Seq<u8>, g: nat)
    ensures
        blocks(input, alphabet, g).len() == 4 * g,
    decreases g,
{
    if g > 0 {
        lemma_blocks_len(input, alphabet, (g - 1) as nat);
    }
}

/// The blocks of a prefix are those of the whole input.
pub proof fn lemma_blocks_split(input: Seq<u8>, alphabet: Seq<u8>, start: nat, count: nat)
    ensures
        blocks(input, alphabet, start + count) == blocks(input, alphabet, start) + blocks_from(
            input,
            alphabet,
            start,
            count,
        ),
    decreases count,
{
    if count > 0 {
        lemma_blocks_split(input, alphabet, start, (count - 1) as nat);
        assert(blocks(input, alphabet, start + count) == blocks(
            input,
            alphabet,
            (start + count - 1) as nat,
        ) + group(input, alphabet, start + count - 1));
        assert(blocks(input, alphabet, start + count) =~= blocks(input, alphabet, start)
            + blocks_from(input, alphabet, start, count));
    }
}

/// The encoding of `input` has `encoding_len` characters.
pub proof fn lemma_encoding_len(input: Seq<u8>, alphabet: Seq<u8>, padded: bool)
    ensures
        encoding(input, alphabet, padded).len() == encoding_len(input.len(), padded),
{
    lemma_blocks_len(input, alphabet, input.len() / 3);
}

/// Appending text that stays on the current line.
pub proof fn lemma_wrapped_append_same_line(text: Seq<u8>, extra: Seq<u8>, width: nat)
    requires
        width > 0,
        text.len() == 0 || (text.len() as int) % (width as int) != 0,
        (text.len() as int) % (width as int) + extra.len() <= width,
    ensures
        wrapped(text + extra, width) == wrapped(text, width) + extra,
    decreases text.len(),
{
    let w = width as int;
    if text.len() > width {
        assert((text + extra).take(w) =~= text.take(w));
        assert((text + extra).skip(w) =~= text.skip(w) + extra);
        assert((text.skip(w).len() as int) % w == (text.len() as int) % w) by {
            vstd::arithmetic::div_mod::lemma_mod_sub_multiples_vanish(text.len() as int, w);
        }
        lemma_wrapped_append_same_line(text.skip(w), extra, width);
        assert(wrapped(text + extra, width) =~= wrapped(text, width) + extra);
    } else {
        if text.len() > 0 {
            if text.len() == width {
                vstd::arithmetic::div_mod::lemma_mod_self_0(w);
            }
            vstd::arithmetic::div_mod::lemma_small_mod(text.len() as nat, width);
        }
        assert((text + extra).len() <= width);
    }
}

/// Appending text that starts a new line after a full one.
pub proof fn lemma_wrapped_append_new_line(text: Seq<u8>, extra: Seq<u8>, width: nat)
    requires
        width > 0,
        text.len() > 0,
        (text.len() as int) % (width as int) == 0,
        0 < extra.len() <= width,
    ensures
        wrapped(text + extra, width) == wrapped(text, width) + seq![newline_byte()] + extra,
    decreases text.len(),
{
    let w = width as int;
    if text.len() > width {
        assert((text + extra).take(w) =~= text.take(w));
        assert((text + extra).skip(w) =~= text.skip(w) + extra);
        assert((text.skip(w).len() as int) % w == 0) by {
            vstd::arithmetic::div_mod::lemma_mod_sub_multiples_vanish(text.len() as int, w);
        }
        assert(text.skip(w).len() > 0) by {
            if text.skip(w).len() == 0 {
            }
        }
        lemma_wrapped_append_new_line(text.skip(w), extra, width);
        assert(wrapped(text + extra, width) =~= wrapped(text, width) + seq![newline_byte()] + extra);
    } else {
        assert(text.len() == width) by {
            if text.len() < width {
                vstd::arithmetic::div_mod::lemma_small_mod(text.len() as nat, width);
            }
        }
        assert((text + extra).take(w) =~= text);
        assert((text + extra).skip(w) =~= extra);
        assert(wrapped(extra, width) == extra);
        assert(wrapped(text, width) == text);
        assert(wrapped(text + extra, width) =~= wrapped(text, width) + seq![newline_byte()] + extra);
    }
}

/// The wrapped text has `wrapped_len` characters: one newline per full
/// line before the last.
pub proof fn lemma_wrapped_len(text: Seq<u8>, width: nat)
    ensures
        wrapped(text, width).len() == wrapped_len(text.len(), width),
    decreases text.len(),
{
    if width > 0 && text.len() > width {
        let w = width as int;
        lemma_wrapped_len(text.skip(w), width);
        let n = text.len() as int;
        assert((n - 1) / w == (n - w - 1) / w + 1) by {
            vstd::arithmetic::div_mod::lemma_div_plus_one(n - w - 1, w);
        }
    } else if width > 0 && text.len() > 0 {
        vstd::arithmetic::div_mod::lemma_basic_div((text.len() - 1) as int, width as int);
    }
}

/// The groups of `input` from group `start` on are those of the input
/// that starts there.
pub proof fn lemma_blocks_from_skip(input: Seq<u8>, alphabet: Seq<u8>, start: nat, count: nat)
    requires
        3 * (start + count) <= input.len(),
    ensures
        blocks_from(input, alphabet, start, count) == blocks(input.skip(3 * start as int), alphabet, count),
    decreases count,
{
    if count > 0 {
        lemma_blocks_from_skip(input, alphabet, start, (count - 1) as nat);
        let rest = input.skip(3 * start as int);
        let k = 3 * (count - 1);
        assert(rest[k] == input[3 * start + k]);
        assert(rest[k + 1] == input[3 * start + k + 1]);
        assert(rest[k + 2] == input[3 * start + k + 2]);
        assert(group(input, alphabet, start + count - 1) == group(rest, alphabet, count - 1));
    }
}

/// The encoding of an input is the encoding of its first `c` bytes (whole
/// groups) followed by the encoding of the rest.
pub proof fn lemma_encoding_split(input: Seq<u8>, alphabet: Seq<u8>, padded: bool, c: nat)
    requires
        c % 3 == 0,
        c <= input.len(),
    ensures
        encoding(input, alphabet, padded) == blocks(input, alphabet, c / 3) + encoding(
            input.skip(c as int),
            alphabet,
            padded,
        ),
{
    let n = input.len();
    let rest = input.skip(c as int);
    let start = c / 3;
    let count = (n / 3 - start) as nat;
    assert(n / 3 == start + (n - c) / 3);
    lemma_blocks_split(input, alphabet, start, count);
    lemma_blocks_from_skip(input, alphabet, start, count);
    assert(3 * start == c);
    assert(rest.len() / 3 == count);
    assert(rest.len() % 3 == n % 3);
    let i = n - n % 3;
    if n % 3 != 0 {
        assert(rest[i - c] == input[i]);
        if n % 3 == 2 {
            assert(rest[i - c + 1] == input[i + 1]);
        }
    }
    assert(tail(input, alphabet, padded) == tail(rest, alphabet, padded));
    assert(encoding(input, alphabet, padded) =~= blocks(input, alphabet, c / 3) + encoding(
        rest,
        alphabet,
        padded,
    ));
}

/// Each 6-bit value of a group is below 64.
pub proof fn lemma_sextets_bounded(a: u8, b: u8, c: u8)
    ensures
        sextet0(a) < 64,
        sextet1(a, b) < 64,
        sextet2(b, c) < 64,
        sextet3(c) < 64,
{
    assert(sextet0(a) < 64 && sextet1(a, b) < 64 && sextet2(b, c) < 64 && sextet3(c) < 64)
        by (bit_vector);
}

/// The padding law: padding only appends `=`. The unpadded encoding is the
/// padded one without its trailing `=` characters, and the padded encoding
/// is a whole number of quads.
pub proof fn lemma_padding(input: Seq<u8>, alphabet: Seq<u8>)
    ensures
        encoding(input, alphabet, false) == encoding(input, alphabet, true).take(
            encoding_len(input.len(), false) as int,
        ),
        forall|i: int|
            encoding_len(input.len(), false) <= i < encoding_len(input.len(), true) ==> #[trigger] encoding(
                input,
                alphabet,
                true,
            )[i] == pad_byte(),
        encoding_len(input.len(), true) % 4 == 0,
{
    lemma_encoding_len(input, alphabet, false);
    lemma_encoding_len(input, alphabet, true);
    assert(encoding(input, alphabet, false) =~= encoding(input, alphabet, true).take(
        encoding_len(input.len(), false) as int,
    ));
}

/// Every character of an encoding is a character of the alphabet or the
/// padding character.
pub proof fn lemma_encoding_chars(input: Seq<u8>, alphabet: Seq<u8>, padded: bool)
    requires
        alphabet.len() == 64,
    ensures
        forall|i: int|
            0 <= i < encoding(input, alphabet, padded).len() ==> alphabet.contains(
                #[trigger] encoding(input, alphabet, padded)[i],
            ) || encoding(input, alphabet, padded)[i] == pad_byte(),
{
    lemma_blocks_chars(input, alphabet, input.len() / 3);
    let n = input.len();
    let i = n - n % 3;
    if n % 3 == 1 {
        lemma_sextets_bounded(input[i], 0u8, 0u8);
        assert(alphabet[sextet0(input[i]) as int] == alphabet[sextet0(input[i]) as int]);
    } else if n % 3 == 2 {
        lemma_sextets_bounded(input[i], input[i + 1], 0u8);
    }
    let t = tail(input, alphabet, padded);
    assert forall|k: int| 0 <= k < t.len() implies alphabet.contains(#[trigger] t[k]) || t[k]
        == pad_byte() by {
        if n % 3 == 1 {
            lemma_sextets_bounded(input[i], 0u8, 0u8);
            if k == 0 {
                assert(alphabet[sextet0(input[i]) as int] == t[k]);
            } else if k == 1 {
                assert(alphabet[sextet1(input[i], 0u8) as int] == t[k]);
            }
        } else if n % 3 == 2 {
            lemma_sextets_bounded(input[i], input[i + 1], 0u8);
            if k == 0 {
                assert(alphabet[sextet0(input[i]) as int] == t[k]);
            } else if k == 1 {
                assert(alphabet[sextet1(input[i], input[i + 1]) as int] == t[k]);
            } else if k == 2 {
                assert(alphabet[sextet2(input[i + 1], 0u8) as int] == t[k]);
            }
        }
    }
    let b = blocks(input, alphabet, input.len() / 3);
    assert forall|k: int| 0 <= k < encoding(input, alphabet, padded).len() implies alphabet.contains(
        #[trigger] encoding(input, alphabet, padded)[k],
    ) || encoding(input, alphabet, padded)[k] == pad_byte() by {
        if k < b.len() {
            assert(encoding(input, alphabet, padded)[k] == b[k]);
        } else {
            assert(encoding(input, alphabet, padded)[k] == t[k - b.len()]);
        }
    }
}

proof fn lemma_blocks_chars(input: Seq<u8>, alphabet: Seq<u8>, g: nat)
    requires
        alphabet.len() == 64,
    ensures
        forall|k: int|
            0 <= k < blocks(input, alphabet, g).len() ==> alphabet.contains(
                #[trigger] blocks(input, alphabet, g)[k],
            ),
    decreases g,
{
    if g > 0 {
        lemma_blocks_chars(input, alphabet, (g - 1) as nat);
        let prev = blocks(input, alphabet, (g - 1) as nat);
        let q = group(input, alphabet, g - 1);
        let j = 3 * (g - 1);
        lemma_sextets_bounded(input[j], input[j + 1], input[j + 2]);
        assert forall|k: int| 0 <= k < q.len() implies alphabet.contains(#[trigger] q[k]) by {
            if k == 0 {
                assert(alphabet[sextet0(input[j]) as int] == q[k]);
            } else if k == 1 {
                assert(alphabet[sextet1(input[j], input[j + 1]) as int] == q[k]);
            } else if k == 2 {
                assert(alphabet[sextet2(input[j + 1], input[j + 2]) as int] == q[k]);
            } else {
                assert(alphabet[sextet3(input[j + 2]) as int] == q[k]);
            }
        }
        assert forall|k: int| 0 <= k < blocks(input, alphabet, g).len() implies alphabet.contains(
            #[trigger] blocks(input, alphabet, g)[k],
        ) by {
            if k < prev.len() {
                assert(blocks(input, alphabet, g)[k] == prev[k]);
            } else {
                assert(blocks(input, alphabet, g)[k] == q[k - prev.len()]);
            }
        }
    }
}

/// Keeps every character but the newline.
pub open spec fn not_newline() -> spec_fn(u8) -> bool {
    |c: u8| c != newline_byte()
}

proof fn lemma_filter_keeps_all(text: Seq<u8>)
    requires
        !text.contains(newline_byte()),
    ensures
        text.filter(not_newline()) == text,
    decreases text.len(),
{
    reveal(Seq::filter);
    if text.len() > 0 {
        assert(!text.drop_last().contains(newline_byte())) by {
            if text.drop_last().contains(newline_byte()) {
                let k = choose|k: int| 0 <= k < text.drop_last().len() && text.drop_last()[k] == newline_byte();
                assert(text[k] == newline_byte());
            }
        }
        lemma_filter_keeps_all(text.drop_last());
        assert(not_newline()(text.last())) by {
            if !not_newline()(text.last()) {
                assert(text[text.len() - 1] == newline_byte());
            }
        }
        assert(text.drop_last().push(text.last()) =~= text);
    }
}

/// The wrapping law: the newlines that wrapping inserts are the only
/// change it makes; without them the text is the one that was wrapped.
pub proof fn lemma_wrapped_lines(text: Seq<u8>, width: nat)
    requires
        !text.contains(newline_byte()),
    ensures
        wrapped(text, width).filter(not_newline()) == text,
    decreases text.len(),
{
    if width == 0 || text.len() <= width {
        lemma_filter_keeps_all(text);
    } else {
        let w = width as int;
        let head = text.take(w);
        let rest = text.skip(w);
        assert(!head.contains(newline_byte())) by {
            if head.contains(newline_byte()) {
                let k = choose|k: int| 0 <= k < head.len() && head[k] == newline_byte();
                assert(text[k] == newline_byte());
            }
        }
        assert(!rest.contains(newline_byte())) by {
            if rest.contains(newline_byte()) {
                let k = choose|k: int| 0 <= k < rest.len() && rest[k] == newline_byte();
                assert(text[k + w] == newline_byte());
            }
        }
        lemma_wrapped_lines(rest, width);
        lemma_filter_keeps_all(head);
        let pred = not_newline();
        Seq::filter_distributes_over_add(head + seq![newline_byte()], wrapped(rest, width), pred);
        Seq::filter_distributes_over_add(head, seq![newline_byte()], pred);
        assert(seq![newline_byte()].filter(pred) =~= seq![]) by {
            reveal(Seq::filter);
            assert(seq![newline_byte()].drop_last() =~= Seq::<u8>::empty());
            assert(Seq::<u8>::empty().filter(pred) == Seq::<u8>::empty());
        }
        assert(head + rest =~= text);
    }
}

/// Wrapping an encoding whose alphabet has no newline only inserts
/// newlines: without them, the wrapped encoding is the encoding.
pub proof fn lemma_wrapped_encoding_lines(input: Seq<u8>, alphabet: Seq<u8>, padded: bool, width: nat)
    requires
        alphabet.len() == 64,
        forall|i: int| 0 <= i < 64 ==> #[trigger] alphabet[i] != newline_byte(),
    ensures
        wrapped(encoding(input, alphabet, padded), width).filter(not_newline()) == encoding(
            input,
            alphabet,
            padded,
        ),
{
    let e = encoding(input, alphabet, padded);
    lemma_encoding_chars(input, alphabet, padded);
    assert(!e.contains(newline_byte())) by {
        if e.contains(newline_byte()) {
            let k = choose|k: int| 0 <= k < e.len() && e[k] == newline_byte();
            assert(alphabet.contains(e[k]) || e[k] == pad_byte());
            if alphabet.contains(e[k]) {
                let m = choose|m: int| 0 <= m < alphabet.len() && alphabet[m] == e[k];
                assert(alphabet[m] != newline_byte());
            }
        }
    }
    lemma_wrapped_lines(e, width);
}

/// Encoding with `to` is encoding with `from` and then replacing each
/// character by `f` of it, when `f` takes each character of `from` to the
/// character of `to` for the same value and keeps `=`.
pub proof fn lemma_encoding_alphabet_map(
    input: Seq<u8>,
    from: Seq<u8>,
    to: Seq<u8>,
    f: spec_fn(u8) -> u8,
    padded: bool,
)
    requires
        forall|v: int| 0 <= v < 64 ==> #[trigger] f(from[v]) == to[v],
        f(pad_byte()) == pad_byte(),
    ensures
        encoding(input, to, padded) == encoding(input, from, padded).map_values(f),
{
    lemma_blocks_alphabet_map(input, from, to, f, input.len() / 3);
    let n = input.len();
    let i = n - n % 3;
    if n % 3 == 1 {
        lemma_sextets_bounded(input[i], 0u8, 0u8);
    } else if n % 3 == 2 {
        lemma_sextets_bounded(input[i], input[i + 1], 0u8);
    }
    assert(tail(input, to, padded) =~= tail(input, from, padded).map_values(f));
    assert(encoding(input, to, padded) =~= encoding(input, from, padded).map_values(f));
}

proof fn lemma_blocks_alphabet_map(
    input: Seq<u8>,
    from: Seq<u8>,
    to: Seq<u8>,
    f: spec_fn(u8) -> u8,
    g: nat,
)
    requires
        forall|v: int| 0 <= v < 64 ==> #[trigger] f(from[v]) == to[v],
    ensures
        blocks(input, to, g) == blocks(input, from, g).map_values(f),
    decreases g,
{
    if g > 0 {
        lemma_blocks_alphabet_map(input, from, to, f, (g - 1) as nat);
        let j = 3 * (g - 1);
        lemma_sextets_bounded(input[j], input[j + 1], input[j + 2]);
        assert(group(input, to, g - 1) =~= group(input, from, g - 1).map_values(f));
        assert(blocks(input, to, g) =~= blocks(input, from, g).map_values(f));
    }
}

} // verus!
