//! What holds of texts, numbers in them, and notes found by them.
use vstd::prelude::*;

use crate::bytes::le_bytes;
use crate::collections::{lemma_picks_first, lemma_picks_none, picks};
use crate::mmr::canonical;
use crate::note::retrieval::{consumable_of, has_id_prefix, prefix_text};
use crate::protocol_config::{word_bytes, word_hex_of};
use crate::store::InputNoteRecord;
use crate::text::{
    bytes_hex, decimal_of, digit_char, digit_of, digits_of, digits_value, hex_of, joined, number_of,
    occurs_at, occurs_in,
};
use crate::rpc::domain::sync::config_mismatch_text;
use crate::rpc::grpc_client::negative_scheme_text;
use crate::rpc::verifying_client::{account_text, block_text, proof_text, script_text};
use crate::sync::note_sync::{nullifier_mismatch_text, private_note_text};
use crate::test_utils::mock_answers::no_snapshot_text;
use crate::types::{AccountId, BlockNumber, NoteId, Word};

verus! {

// TEXTS
// ================================================================================================
/// A part occurs in a text if and only if the text is the part with something before and something
/// after it, which may be empty.
pub proof fn law_occurs(text: Seq<char>, part: Seq<char>, before: Seq<char>, after: Seq<char>)
    ensures
        occurs_in(before + part + after, part),
        occurs_at(before + part + after, part, before.len() as int),
        occurs_in(text, part) ==> exists|at: int|
            0 <= at <= text.len() - part.len() && text == #[trigger] text.take(at) + part
                + text.skip(at + part.len()),
{
    let whole = before + part + after;
    let at = before.len() as int;
    assert(whole.subrange(at, at + part.len()) =~= part);
    assert(occurs_at(whole, part, at));
    if occurs_in(text, part) {
        let at = choose|at: int| #[trigger] occurs_at(text, part, at);
        let parts = text.take(at) + part + text.skip(at + part.len());
        assert forall|i: int| 0 <= i < text.len() implies text[i] == parts[i] by {
            if at <= i < at + part.len() {
                assert(text.subrange(at, at + part.len())[i - at] == text[i]);
            }
        }
        assert(text =~= parts);
    }
}

/// The digits of a number, in the order in which they are written, are read as the number. A sign
/// before them changes nothing.
pub proof fn law_number_is_read_back(number: u64)
    ensures
        number_of(decimal_of(number as nat)) == Some(number),
        number_of(seq!['+'] + decimal_of(number as nat)) == Some(number),
{
    let digits = decimal_of(number as nat);
    lemma_decimal(number as nat);
    assert(digits.len() > 0);
    assert(digit_of(digits[0]) is Some);
    assert(digits_of(digits) =~= digits);
    let signed = seq!['+'] + digits;
    assert(signed.skip(1) =~= digits);
}

/// The digits of a number have its value.
proof fn lemma_decimal(number: nat)
    ensures
        digits_value(decimal_of(number)) == Some(number),
        decimal_of(number).len() > 0,
        digit_of(decimal_of(number)[0]) is Some,
    decreases number,
{
    let digits = decimal_of(number);
    if number < 10 {
        lemma_digit(number);
        assert(digits.drop_last() =~= Seq::empty());
        assert(digits_value(Seq::<char>::empty()) == Some(0nat));
        assert(digits_value(digits) == Some(0 * 10 + number));
    } else {
        lemma_decimal(number / 10);
        lemma_digit(number % 10);
        assert(digits.drop_last() =~= decimal_of(number / 10));
        assert(number / 10 * 10 + number % 10 == number);
    }
}

/// A digit is read as what it was written for.
proof fn lemma_digit(digit: nat)
    requires
        digit < 10,
    ensures
        digit_of(digit_char(digit)) == Some(digit),
{
    let code = ('0' as int + digit) as u32;
    assert(digit_char(digit) as int == '0' as int + digit);
}

/// A text with anything but digits behind the sign is no number, and neither is one without digits.
pub proof fn law_only_digits_make_a_number(text: Seq<char>, i: int)
    ensures
        text.len() == 0 ==> number_of(text) is None,
        text == seq!['+'] ==> number_of(text) is None,
        0 < i < text.len() && !('0' <= text[i] <= '9') ==> number_of(text) is None,
        text.len() > 0 && !('0' <= text[0] <= '9') && text[0] != '+' ==> number_of(text) is None,
{
    let digits = digits_of(text);
    if text == seq!['+'] {
        assert(digits =~= Seq::empty());
    }
    if 0 < i < text.len() && !('0' <= text[i] <= '9') {
        let at = if text[0] == '+' {
            i - 1
        } else {
            i
        };
        assert(digits[at] == text[i]);
        lemma_no_digit(digits, at);
    }
    if text.len() > 0 && !('0' <= text[0] <= '9') && text[0] != '+' {
        lemma_no_digit(digits, 0);
    }
}

/// Something that is no digit gives no value.
proof fn lemma_no_digit(digits: Seq<char>, i: int)
    requires
        0 <= i < digits.len(),
        digit_of(digits[i]) is None,
    ensures
        digits_value(digits) is None,
    decreases digits.len(),
{
    if i < digits.len() - 1 {
        lemma_no_digit(digits.drop_last(), i);
    }
}

/// Digits are read from the most significant one on, to the base ten.
pub proof fn law_digits_value(digits: Seq<char>, digit: char)
    requires
        digits_value(digits) is Some,
        '0' <= digit <= '9',
    ensures
        digits_value(Seq::empty()) == Some(0nat),
        digits_value(digits.push(digit)) == Some(
            (digits_value(digits)->0 * 10 + (digit as int - '0' as int)) as nat,
        ),
{
    assert(digits.push(digit).drop_last() =~= digits);
}

/// Numbers to the base sixteen have as many digits as asked for, the most significant first: the last
/// digit is the remainder, and those before it are the rest.
pub proof fn law_hex(number: nat, count: nat)
    ensures
        hex_of(number, count).len() == count,
        count > 0 ==> hex_of(number, count).last() == digit_char(number % 16),
        count > 0 ==> hex_of(number, count).drop_last() == hex_of(
            number / 16,
            (count - 1) as nat,
        ),
        forall|digit: nat| digit < 10 ==> (#[trigger] digit_char(digit)) as int == 48 + digit,
        forall|digit: nat| 10 <= digit < 16 ==> (#[trigger] digit_char(digit)) as int == 87 + digit,
    decreases count,
{
    assert('0' as int == 48 && 'a' as int == 97);
    if count > 0 {
        law_hex(number / 16, (count - 1) as nat);
        assert(hex_of(number, count).drop_last() =~= hex_of(number / 16, (count - 1) as nat));
    }
    assert forall|digit: nat| digit < 10 implies (#[trigger] digit_char(digit)) as int == 48
        + digit by {
        let code = ('0' as int + digit) as u32;
    }
    assert forall|digit: nat| 10 <= digit < 16 implies (#[trigger] digit_char(digit)) as int == 87
        + digit by {
        let code = ('a' as int + digit - 10) as u32;
    }
}

/// Bytes are written one after the other, of two digits each.
pub proof fn law_bytes_hex(bytes: Seq<u8>, i: int)
    requires
        0 <= i < bytes.len(),
    ensures
        bytes_hex(bytes).len() == 2 * bytes.len(),
        bytes_hex(bytes).subrange(2 * i, 2 * i + 2) == hex_of(bytes[i] as nat, 2),
    decreases bytes.len(),
{
    let before = bytes.drop_last();
    law_hex(bytes.last() as nat, 2);
    lemma_bytes_hex_len(before);
    if i < before.len() {
        law_bytes_hex(before, i);
        assert(bytes_hex(bytes).subrange(2 * i, 2 * i + 2) =~= bytes_hex(before).subrange(
            2 * i,
            2 * i + 2,
        ));
    } else {
        assert(bytes_hex(bytes).subrange(2 * i, 2 * i + 2) =~= hex_of(bytes[i] as nat, 2));
    }
}

/// A byte takes two digits.
proof fn lemma_bytes_hex_len(bytes: Seq<u8>)
    ensures
        bytes_hex(bytes).len() == 2 * bytes.len(),
    decreases bytes.len(),
{
    if bytes.len() > 0 {
        law_hex(bytes.last() as nat, 2);
        lemma_bytes_hex_len(bytes.drop_last());
    }
}

/// A word is written as the bytes of its elements in the field, the first element first and the least
/// significant byte first.
pub proof fn law_word_text(word: Word)
    ensures
        ({
            let own = canonical(word);
            &&& word_bytes(word).len() == 32
            &&& word_bytes(word).subrange(0, 8) == le_bytes(own.e0 as nat, 8)
            &&& word_bytes(word).subrange(8, 16) == le_bytes(own.e1 as nat, 8)
            &&& word_bytes(word).subrange(16, 24) == le_bytes(own.e2 as nat, 8)
            &&& word_bytes(word).subrange(24, 32) == le_bytes(own.e3 as nat, 8)
            &&& word_hex_of(word).len() == 66
            &&& word_hex_of(word)[0] == '0' && word_hex_of(word)[1] == 'x'
            &&& word_hex_of(word).skip(2) == bytes_hex(word_bytes(word))
        }),
{
    let own = canonical(word);
    crate::bytes::lemma_le_len(own.e0 as nat, 8);
    crate::bytes::lemma_le_len(own.e1 as nat, 8);
    crate::bytes::lemma_le_len(own.e2 as nat, 8);
    crate::bytes::lemma_le_len(own.e3 as nat, 8);
    assert(word_bytes(word).subrange(0, 8) =~= le_bytes(own.e0 as nat, 8));
    assert(word_bytes(word).subrange(8, 16) =~= le_bytes(own.e1 as nat, 8));
    assert(word_bytes(word).subrange(16, 24) =~= le_bytes(own.e2 as nat, 8));
    assert(word_bytes(word).subrange(24, 32) =~= le_bytes(own.e3 as nat, 8));
    lemma_bytes_hex_len(word_bytes(word));
    reveal_strlit("0x");
    assert(word_hex_of(word).skip(2) =~= bytes_hex(word_bytes(word)));
}

/// Texts are joined with a comma and a space between them, and nowhere else.
pub proof fn law_joined(texts: Seq<Seq<char>>, text: Seq<char>)
    ensures
        joined(Seq::empty()).len() == 0,
        joined(seq![text]) == text,
        texts.len() > 0 ==> joined(texts.push(text)) == joined(texts) + seq![',', ' '] + text,
{
    assert(texts.push(text).drop_last() =~= texts);
    reveal_strlit(", ");
    assert(", "@ =~= seq![',', ' ']);
}

// NOTES
// ================================================================================================
/// A note is found by a prefix if and only if it has an id whose text starts with the prefix.
pub proof fn law_id_prefix(record: InputNoteRecord, prefix: Seq<char>)
    ensures
        record.note_id is None ==> !has_id_prefix(record, prefix),
        record.note_id matches Some(id) ==> (has_id_prefix(record, prefix) <==> prefix.is_prefix_of(
            word_hex_of(id),
        )),
{
    if let Some(id) = record.note_id {
        let text = word_hex_of(id);
        if prefix.is_prefix_of(text) {
            assert(text.subrange(0, prefix.len() as int) =~= prefix);
        }
        if has_id_prefix(record, prefix) {
            assert(prefix =~= text.subrange(0, prefix.len() as int));
        }
    }
}

/// Every record of a note that an account can consume is returned with what makes the note consumable:
/// the first record of each such note, in order, and no other.
pub proof fn law_consumable<R>(records: Seq<InputNoteRecord>, relevances: Map<NoteId, R>)
    ensures
        picks(
            consumable_of(records, relevances),
            records.len() as int,
            |i: int|
                records[i].note_id is Some && relevances.contains_key(records[i].note_id->0)
                    && forall|j: int|
                    0 <= j < i ==> (#[trigger] records[j]).note_id != records[i].note_id,
            |i: int| (records[i], relevances[records[i].note_id->0]),
        ),
    decreases records.len(),
{
    let wanted = |i: int|
        records[i].note_id is Some && relevances.contains_key(records[i].note_id->0) && forall|
            j: int,
        |
            0 <= j < i ==> (#[trigger] records[j]).note_id != records[i].note_id;
    let value = |i: int| (records[i], relevances[records[i].note_id->0]);
    if records.len() == 0 {
        lemma_picks_none(wanted, value);
    } else {
        let after = records.skip(1);
        let left = match records[0].note_id {
            Some(id) if relevances.contains_key(id) => relevances.remove(id),
            _ => relevances,
        };
        law_consumable(after, left);
        let wanted_after = |i: int|
            after[i].note_id is Some && left.contains_key(after[i].note_id->0) && forall|j: int|
                0 <= j < i ==> (#[trigger] after[j]).note_id != after[i].note_id;
        let value_after = |i: int| (after[i], left[after[i].note_id->0]);
        assert forall|i: int| 0 <= i < records.len() - 1 implies #[trigger] wanted_after(i)
            == wanted(i + 1) && (wanted_after(i) ==> value_after(i) == value(i + 1)) by {
            assert(after[i] == records[i + 1]);
            if wanted_after(i) {
                assert forall|j: int| 0 <= j < i + 1 implies (#[trigger] records[j]).note_id
                    != records[i + 1].note_id by {
                    if j > 0 {
                        assert(after[j - 1].note_id != after[i].note_id);
                    }
                }
            }
            if wanted(i + 1) {
                assert(records[0].note_id != records[i + 1].note_id);
                assert forall|j: int| 0 <= j < i implies (#[trigger] after[j]).note_id
                    != after[i].note_id by {
                    assert(records[j + 1].note_id != records[i + 1].note_id);
                }
            }
        }
        lemma_picks_first(
            consumable_of(after, left),
            wanted_after,
            value_after,
            consumable_of(records, relevances),
            records.len() as int,
            wanted,
            value,
        );
    }
}


// MESSAGES
// ================================================================================================
/// The text says the first thing and, behind it, the second.
pub open spec fn says_in_order(text: Seq<char>, first: Seq<char>, second: Seq<char>) -> bool {
    exists|before: Seq<char>, between: Seq<char>, after: Seq<char>|
        text == #[trigger] (before + first + between + second + after)
}

/// A message about something else than was requested says first what was returned, and then what was
/// requested.
pub proof fn law_messages_name_both(
    requested_block: BlockNumber,
    returned_block: BlockNumber,
    requested_account: AccountId,
    returned_account: AccountId,
    requested: Word,
    returned: Word,
)
    ensures
        says_in_order(
            block_text(requested_block, returned_block),
            decimal_of(returned_block as nat),
            decimal_of(requested_block as nat),
        ),
        says_in_order(
            proof_text(requested_account, returned_account),
            account_text(returned_account),
            account_text(requested_account),
        ),
        says_in_order(
            script_text(requested, returned),
            word_hex_of(returned),
            word_hex_of(requested),
        ),
        says_in_order(
            config_mismatch_text(returned, requested),
            word_hex_of(returned),
            word_hex_of(requested),
        ),
{
    assert(block_text(requested_block, returned_block) =~= "node returned block "@ + decimal_of(
        returned_block as nat,
    ) + " but block "@ + decimal_of(requested_block as nat) + " was requested"@);
    assert(proof_text(requested_account, returned_account) =~= "node returned proof for account "@
        + account_text(returned_account) + " but "@ + account_text(requested_account)
        + " was requested"@);
    assert(script_text(requested, returned) =~= "node returned note script with root "@
        + word_hex_of(returned) + " for requested root "@ + word_hex_of(requested) + Seq::<
        char,
    >::empty());
    assert(config_mismatch_text(returned, requested)
        =~= "node returned a protocol configuration with commitment "@ + word_hex_of(returned)
        + " for a block header that commits to "@ + word_hex_of(requested) + Seq::<char>::empty());
}

/// An account is written as a number to the base sixteen, of its first fifteen bytes, with thirty
/// digits.
pub proof fn law_account_text(account_id: AccountId)
    ensures
        account_text(account_id).len() == 32,
        account_text(account_id)[0] == '0' && account_text(account_id)[1] == 'x',
        account_text(account_id).skip(2) == hex_of(account_id as nat / 256, 30),
{
    reveal_strlit("0x");
    law_hex(account_id as nat / 256, 30);
    assert(account_text(account_id).skip(2) =~= hex_of(account_id as nat / 256, 30));
}

/// Messages about a note, a block or a prefix name it.
pub proof fn law_messages_name_one(
    note_id: NoteId,
    block_num: BlockNumber,
    prefix: Seq<char>,
    scheme: i32,
)
    requires
        scheme < 0,
    ensures
        occurs_in(nullifier_mismatch_text(note_id), word_hex_of(note_id)),
        occurs_in(private_note_text(note_id), word_hex_of(note_id)),
        nullifier_mismatch_text(note_id) != private_note_text(note_id),
        occurs_in(no_snapshot_text(block_num), decimal_of(block_num as nat)),
        occurs_in(prefix_text(prefix), prefix),
        occurs_in(negative_scheme_text(scheme), seq!['-'] + decimal_of((-scheme) as nat)),
{
    let none = Seq::<char>::empty();
    let a = "node returned note "@;
    let b = " whose nullifier doesn't match the consumed reference"@;
    law_occurs(none, word_hex_of(note_id), a, b);
    let c = "node returned private note "@;
    let d = " for a public consumed-note reference"@;
    law_occurs(none, word_hex_of(note_id), c, d);
    assert(nullifier_mismatch_text(note_id) != private_note_text(note_id)) by {
        reveal_strlit("node returned note ");
        reveal_strlit("node returned private note ");
        assert(nullifier_mismatch_text(note_id)[14] == 'n');
        assert(private_note_text(note_id)[14] == 'p');
    }
    let e = "no mock chain snapshot at block "@;
    law_occurs(none, decimal_of(block_num as nat), e, none);
    assert(no_snapshot_text(block_num) =~= e + decimal_of(block_num as nat) + none);
    let f = "note ID prefix "@;
    law_occurs(none, prefix, f, none);
    assert(prefix_text(prefix) =~= f + prefix + none);
    let g = "negative IES scheme '-"@;
    let digits = decimal_of((-scheme) as nat);
    reveal_strlit("negative IES scheme '-");
    let h = g.drop_last();
    assert(g.last() == '-');
    law_occurs(none, seq!['-'] + digits, h, "'"@);
    assert(negative_scheme_text(scheme) =~= h + (seq!['-'] + digits) + "'"@);
}


/// A text is a number if and only if the digits behind the sign, of which there are some, have a value
/// that fits, and then it is that value.
pub proof fn law_number_value(text: Seq<char>, number: u64)
    ensures
        text.len() > 0 && text[0] == '+' ==> (number_of(text) == Some(number) <==> text.len() > 1
            && digits_value(text.skip(1)) == Some(number as nat)),
        text.len() > 0 && text[0] != '+' ==> (number_of(text) == Some(number) <==> digits_value(text)
            == Some(number as nat)),
{
}

} // verus!
