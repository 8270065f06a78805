use vstd::prelude::*;

verus! {

broadcast use vstd::string::group_string_axioms;

/// The kinds of built-in objects that have methods.
#[derive(Debug, Clone, Copy, PartialEq, Eq, Structural)]
pub enum ObjectKind {
    List,
    Str,
    Socket,
    Connection,
    Bytes,
    Thread,
    Lock,
}

/// The methods of the built-in objects.
#[derive(Debug, Clone, Copy, PartialEq, Eq, Structural)]
pub enum Method {
    ListAppend,
    ListRemove,
    ListAt,
    ListLength,
    StringLength,
    StringCharAt,
    StringSplit,
    StringSubstr,
    SocketBind,
    SocketAccept,
    ConnectionRecv,
    BytesLength,
    BytesDecode,
    ThreadStart,
    ThreadJoin,
    LockAcquire,
    LockRelease,
}

/// The method table of each kind of built-in object: the method that a name stands for.
pub open spec fn method_spec(kind: ObjectKind, name: Seq<char>) -> Option<Method> {
    match kind {
        ObjectKind::List => if name == "append"@ {
            Some(Method::ListAppend)
        } else if name == "remove"@ {
            Some(Method::ListRemove)
        } else if name == "at"@ {
            Some(Method::ListAt)
        } else if name == "length"@ {
            Some(Method::ListLength)
        } else {
            None
        },
        ObjectKind::Str => if name == "length"@ {
            Some(Method::StringLength)
        } else if name == "char_at"@ {
            Some(Method::StringCharAt)
        } else if name == "split"@ {
            Some(Method::StringSplit)
        } else if name == "substr"@ {
            Some(Method::StringSubstr)
        } else {
            None
        },
        ObjectKind::Socket => if name == "bind"@ {
            Some(Method::SocketBind)
        } else if name == "accept"@ {
            Some(Method::SocketAccept)
        } else {
            None
        },
        ObjectKind::Connection => if name == "recv"@ {
            Some(Method::ConnectionRecv)
        } else {
            None
        },
        ObjectKind::Bytes => if name == "length"@ {
            Some(Method::BytesLength)
        } else if name == "decode"@ {
            Some(Method::BytesDecode)
        } else {
            None
        },
        ObjectKind::Thread => if name == "start"@ {
            Some(Method::ThreadStart)
        } else if name == "join"@ {
            Some(Method::ThreadJoin)
        } else {
            None
        },
        ObjectKind::Lock => if name == "acquire"@ {
            Some(Method::LockAcquire)
        } else if name == "release"@ {
            Some(Method::LockRelease)
        } else {
            None
        },
    }
}

/// Whether `name` is the text `word`.
fn is_word(name: &String, word: &str) -> (b: bool)
    ensures
        b == (name@ == word@),
{
    let w = word.to_string();
    *name == w
}

/// The method that `name` stands for on an object of this kind, if any.
pub fn method_of(kind: ObjectKind, name: &str) -> (r: Option<Method>)
    ensures
        r == method_spec(kind, name@),
{
    let n = name.to_string();
    match kind {
        ObjectKind::List => if is_word(&n, "append") {
            Some(Method::ListAppend)
        } else if is_word(&n, "remove") {
            Some(Method::ListRemove)
        } else if is_word(&n, "at") {
            Some(Method::ListAt)
        } else if is_word(&n, "length") {
            Some(Method::ListLength)
        } else {
            None
        },
        ObjectKind::Str => if is_word(&n, "length") {
            Some(Method::StringLength)
        } else if is_word(&n, "char_at") {
            Some(Method::StringCharAt)
        } else if is_word(&n, "split") {
            Some(Method::StringSplit)
        } else if is_word(&n, "substr") {
            Some(Method::StringSubstr)
        } else {
            None
        },
        ObjectKind::Socket => if is_word(&n, "bind") {
            Some(Method::SocketBind)
        } else if is_word(&n, "accept") {
            Some(Method::SocketAccept)
        } else {
            None
        },
        ObjectKind::Connection => if is_word(&n, "recv") {
            Some(Method::ConnectionRecv)
        } else {
            None
        },
        ObjectKind::Bytes => if is_word(&n, "length") {
            Some(Method::BytesLength)
        } else if is_word(&n, "decode") {
            Some(Method::BytesDecode)
        } else {
            None
        },
        ObjectKind::Thread => if is_word(&n, "start") {
            Some(Method::ThreadStart)
        } else if is_word(&n, "join") {
            Some(Method::ThreadJoin)
        } else {
            None
        },
        ObjectKind::Lock => if is_word(&n, "acquire") {
            Some(Method::LockAcquire)
        } else if is_word(&n, "release") {
            Some(Method::LockRelease)
        } else {
            None
        },
    }
}

/// The name under which a method is found on its object.
pub open spec fn method_name(m: Method) -> Seq<char> {
    match m {
        Method::ListAppend => "append"@,
        Method::ListRemove => "remove"@,
        Method::ListAt => "at"@,
        Method::ListLength => "length"@,
        Method::StringLength => "length"@,
        Method::StringCharAt => "char_at"@,
        Method::StringSplit => "split"@,
        Method::StringSubstr => "substr"@,
        Method::SocketBind => "bind"@,
        Method::SocketAccept => "accept"@,
        Method::ConnectionRecv => "recv"@,
        Method::BytesLength => "length"@,
        Method::BytesDecode => "decode"@,
        Method::ThreadStart => "start"@,
        Method::ThreadJoin => "join"@,
        Method::LockAcquire => "acquire"@,
        Method::LockRelease => "release"@,
    }
}

/// The kind of object that a method belongs to.
pub open spec fn method_kind(m: Method) -> ObjectKind {
    match m {
        Method::ListAppend => ObjectKind::List,
        Method::ListRemove => ObjectKind::List,
        Method::ListAt => ObjectKind::List,
        Method::ListLength => ObjectKind::List,
        Method::StringLength => ObjectKind::Str,
        Method::StringCharAt => ObjectKind::Str,
        Method::StringSplit => ObjectKind::Str,
        Method::StringSubstr => ObjectKind::Str,
        Method::SocketBind => ObjectKind::Socket,
        Method::SocketAccept => ObjectKind::Socket,
        Method::ConnectionRecv => ObjectKind::Connection,
        Method::BytesLength => ObjectKind::Bytes,
        Method::BytesDecode => ObjectKind::Bytes,
        Method::ThreadStart => ObjectKind::Thread,
        Method::ThreadJoin => ObjectKind::Thread,
        Method::LockAcquire => ObjectKind::Lock,
        Method::LockRelease => ObjectKind::Lock,
    }
}

/// Looking a method up by name finds the method of that name on that kind of object, and
/// each method is found on its own kind of object under its own name.
pub proof fn law_method_lookup(kind: ObjectKind, name: Seq<char>, m: Method)
    ensures
        method_spec(kind, name) == Some(m) ==> method_name(m) == name && method_kind(m) == kind,
        method_spec(method_kind(m), method_name(m)) == Some(m),
{
    reveal_strlit("append");
    reveal_strlit("remove");
    reveal_strlit("at");
    reveal_strlit("length");
    reveal_strlit("char_at");
    reveal_strlit("split");
    reveal_strlit("substr");
    reveal_strlit("bind");
    reveal_strlit("accept");
    reveal_strlit("recv");
    reveal_strlit("decode");
    reveal_strlit("start");
    reveal_strlit("join");
    reveal_strlit("acquire");
    reveal_strlit("release");
    match m {
        Method::ListAppend => {},
        Method::ListRemove => {
            assert("remove"@[0] != "append"@[0]);
        },
        Method::ListAt => {
            assert("at"@.len() != "append"@.len());
            assert("at"@.len() != "remove"@.len());
        },
        Method::ListLength => {
            assert("length"@[0] != "append"@[0]);
            assert("length"@[0] != "remove"@[0]);
            assert("length"@.len() != "at"@.len());
        },
        Method::StringLength => {},
        Method::StringCharAt => {
            assert("char_at"@.len() != "length"@.len());
        },
        Method::StringSplit => {
            assert("split"@.len() != "length"@.len());
            assert("split"@.len() != "char_at"@.len());
        },
        Method::StringSubstr => {
            assert("substr"@[0] != "length"@[0]);
            assert("substr"@.len() != "char_at"@.len());
            assert("substr"@.len() != "split"@.len());
        },
        Method::SocketBind => {},
        Method::SocketAccept => {
            assert("accept"@.len() != "bind"@.len());
        },
        Method::ConnectionRecv => {},
        Method::BytesLength => {},
        Method::BytesDecode => {
            assert("decode"@[0] != "length"@[0]);
        },
        Method::ThreadStart => {},
        Method::ThreadJoin => {
            assert("join"@.len() != "start"@.len());
        },
        Method::LockAcquire => {},
        Method::LockRelease => {
            assert("release"@[0] != "acquire"@[0]);
        },
    }
}

} // verus!
