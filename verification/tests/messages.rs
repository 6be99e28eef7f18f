use ssh_commander::messages::{
    added_message, key_exists_message, key_failed_message, key_generated_message,
    keys_deleted_message, removed_message,
};

#[test]
fn messages_name_what_they_are_about() {
    assert_eq!(added_message("web"), "Конфигурация для web успешно добавлена!");
    assert_eq!(removed_message("web"), "Сервер web удалён из конфигурации");
    assert_eq!(key_exists_message("/k/id"), "Ключ уже существует: /k/id");
    assert_eq!(key_generated_message("/k/id"), "Ключ успешно сгенерирован: /k/id");
    assert_eq!(key_failed_message("bad"), "Не удалось сгенерировать ключ: bad");
    assert_eq!(keys_deleted_message("/k/id"), "Ключи удалены: /k/id");
}

#[test]
fn messages_take_the_name_as_it_is() {
    assert_eq!(added_message(""), "Конфигурация для  успешно добавлена!");
    assert_eq!(removed_message("a b"), "Сервер a b удалён из конфигурации");
}
