//! The sentences that tell the user how an operation ended.

use vstd::prelude::*;
use vstd::string::StringExecFns;

verus! {

/// A block for `server_name` was added.
pub open spec fn added_text(server_name: Seq<char>) -> Seq<char> {
    "Конфигурация для "@ + server_name + " успешно добавлена!"@
}

/// The blocks of `server_name` were removed.
pub open spec fn removed_text(server_name: Seq<char>) -> Seq<char> {
    "Сервер "@ + server_name + " удалён из конфигурации"@
}

/// A key stands at `private_key` already.
pub open spec fn key_exists_text(private_key: Seq<char>) -> Seq<char> {
    "Ключ уже существует: "@ + private_key
}

/// A key pair was made at `private_key`.
pub open spec fn key_generated_text(private_key: Seq<char>) -> Seq<char> {
    "Ключ успешно сгенерирован: "@ + private_key
}

/// No key pair was made; `stderr` is what `ssh-keygen` wrote.
pub open spec fn key_failed_text(stderr: Seq<char>) -> Seq<char> {
    "Не удалось сгенерировать ключ: "@ + stderr
}

/// The key pair at `private_key` was deleted.
pub open spec fn keys_deleted_text(private_key: Seq<char>) -> Seq<char> {
    "Ключи удалены: "@ + private_key
}

/// `head`, `middle` and `tail` in one string.
fn sentence(head: &str, middle: &str, tail: &str) -> (text: String)
    ensures
        text@ == head@ + middle@ + tail@,
{
    let mut text = head.to_owned();
    text.append(middle);
    text.append(tail);
    text
}

/// The sentence that a block for `server_name` was added.
pub fn added_message(server_name: &str) -> (text: String)
    ensures
        text@ == added_text(server_name@),
{
    sentence("Конфигурация для ", server_name, " успешно добавлена!")
}

/// The sentence that the blocks of `server_name` were removed.
pub fn removed_message(server_name: &str) -> (text: String)
    ensures
        text@ == removed_text(server_name@),
{
    sentence("Сервер ", server_name, " удалён из конфигурации")
}

/// The sentence that a key stands at `private_key` already.
pub fn key_exists_message(private_key: &str) -> (text: String)
    ensures
        text@ == key_exists_text(private_key@),
{
    proof {
        assert("Ключ уже существует: "@ + private_key@ + ""@ =~= key_exists_text(private_key@)) by {
            reveal_strlit("");
        }
    }
    sentence("Ключ уже существует: ", private_key, "")
}

/// The sentence that a key pair was made at `private_key`.
pub fn key_generated_message(private_key: &str) -> (text: String)
    ensures
        text@ == key_generated_text(private_key@),
{
    proof {
        assert("Ключ успешно сгенерирован: "@ + private_key@ + ""@ =~= key_generated_text(
            private_key@,
        )) by {
            reveal_strlit("");
        }
    }
    sentence("Ключ успешно сгенерирован: ", private_key, "")
}

/// The sentence that no key pair was made, with what `ssh-keygen` wrote
/// to its error stream.
pub fn key_failed_message(stderr: &str) -> (text: String)
    ensures
        text@ == key_failed_text(stderr@),
{
    proof {
        assert("Не удалось сгенерировать ключ: "@ + stderr@ + ""@ =~= key_failed_text(stderr@))
            by {
            reveal_strlit("");
        }
    }
    sentence("Не удалось сгенерировать ключ: ", stderr, "")
}

/// The sentence that the key pair at `private_key` was deleted.
pub fn keys_deleted_message(private_key: &str) -> (text: String)
    ensures
        text@ == keys_deleted_text(private_key@),
{
    proof {
        assert("Ключи удалены: "@ + private_key@ + ""@ =~= keys_deleted_text(private_key@)) by {
            reveal_strlit("");
        }
    }
    sentence("Ключи удалены: ", private_key, "")
}

} // verus!
