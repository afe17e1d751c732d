use vstd::prelude::*;

use crate::error::DatabaseError;
use crate::password::{argon2_accepts, has_default_phc_prefix, hash_password, MAX_PASSWORD_CHARS};

verus! {

/// A row of the user table: a store-assigned id, a unique e-mail address and
/// the PHC string of the password (never the password itself).
#[derive(Debug, Clone)]
pub struct User {
    pub id: i32,
    pub email: String,
    pub hashed_password: String,
}

/// The values a new account is created from. The raw password is hashed
/// when the value is made and never kept.
pub struct NewUser {
    pub email: String,
    pub hashed_password: String,
}

impl NewUser {
    /// Hashes `password` under a fresh salt and pairs the hash with `email`.
    pub fn new(email: &String, password: &String) -> (r: Result<NewUser, DatabaseError>)
        ensures
            password@.len() <= MAX_PASSWORD_CHARS ==> r is Ok,
            r matches Ok(n) ==> n.email@ == email@ && argon2_accepts(
                password@,
                n.hashed_password@,
            ) && has_default_phc_prefix(n.hashed_password@),
            r matches Err(e) ==> e is Argon2Error,
    {
        let hashed_password = hash_password(password)?;
        Ok(NewUser { email: email.clone(), hashed_password })
    }
}

/// What a `User` holds, as mathematical values.
pub struct UserView {
    pub id: i32,
    pub email: Seq<char>,
    pub hashed_password: Seq<char>,
}

impl User {
    /// A field-by-field copy.
    pub fn duplicate(&self) -> (r: User)
        ensures
            r@ == self@,
    {
        User { id: self.id, email: self.email.clone(), hashed_password: self.hashed_password.clone() }
    }
}

impl View for User {
    type V = UserView;

    open spec fn view(&self) -> UserView {
        UserView { id: self.id, email: self.email@, hashed_password: self.hashed_password@ }
    }
}

pub open spec fn is_digit(c: char) -> bool {
    '0' <= c && c <= '9'
}

pub open spec fn digit_value(c: char) -> int {
    c as int - '0' as int
}

/// The decimal digit for `d < 10`.
pub open spec fn digit_char(d: nat) -> char {
    if d == 0 { '0' }
    else if d == 1 { '1' }
    else if d == 2 { '2' }
    else if d == 3 { '3' }
    else if d == 4 { '4' }
    else if d == 5 { '5' }
    else if d == 6 { '6' }
    else if d == 7 { '7' }
    else if d == 8 { '8' }
    else { '9' }
}

/// The decimal digits of `n`, most significant first, without leading zeros.
pub open spec fn digits(n: nat) -> Seq<char>
    decreases n,
{
    if n < 10 {
        seq![digit_char(n)]
    } else {
        digits(n / 10).push(digit_char(n % 10))
    }
}

/// `i` in decimal, with a leading `-` when negative.
pub open spec fn decimal(i: int) -> Seq<char> {
    if i < 0 {
        seq!['-'] + digits((-i) as nat)
    } else {
        digits(i as nat)
    }
}

/// The number that a run of decimal digits denotes.
pub open spec fn digits_value(ds: Seq<char>) -> int
    decreases ds.len(),
{
    if ds.len() == 0 {
        0
    } else {
        digits_value(ds.drop_last()) * 10 + digit_value(ds.last())
    }
}

proof fn lemma_digits_shape(n: nat)
    ensures
        forall|i: int| 0 <= i < digits(n).len() ==> is_digit(#[trigger] digits(n)[i]),
        digits_value(digits(n)) == n,
        digits(n).len() >= 1,
    decreases n,
{
    lemma_digit_char(n % 10);
    if n >= 10 {
        lemma_digits_shape(n / 10);
        assert(digits(n).drop_last() =~= digits(n / 10));
        assert((n / 10) * 10 + n % 10 == n) by (nonlinear_arith);
        assert(digits(n).last() == digit_char(n % 10));
    } else {
        assert(digits(n).drop_last() =~= Seq::<char>::empty());
        assert(digits_value(Seq::<char>::empty()) == 0);
        assert(n % 10 == n);
    }
}

proof fn lemma_digit_char(d: nat)
    requires
        d < 10,
    ensures
        is_digit(digit_char(d)),
        digit_value(digit_char(d)) == d,
{
    assert('0' as int == 48 && '1' as int == 49 && '2' as int == 50 && '3' as int == 51
        && '4' as int == 52 && '5' as int == 53 && '6' as int == 54 && '7' as int == 55
        && '8' as int == 56 && '9' as int == 57);
}

/// The lowercase hexadecimal digit for `d < 16`.
pub open spec fn hex_digit(d: nat) -> char {
    if d < 10 {
        (48 + d) as u32 as char
    } else {
        (87 + d) as u32 as char
    }
}

/// The text a character takes inside a quoted JSON string: a quote and a
/// backslash are preceded by a backslash, a control character is written
/// `\u00XX`, everything else stands as it is.
pub open spec fn escape_char(c: char) -> Seq<char> {
    if c == '"' || c == '\\' {
        seq!['\\', c]
    } else if (c as u32) < 32 {
        seq!['\\', 'u', '0', '0', hex_digit((c as u32 / 16) as nat), hex_digit((c as u32 % 16) as nat)]
    } else {
        seq![c]
    }
}

/// The body of a quoted JSON string holding `s`.
pub open spec fn escaped(s: Seq<char>) -> Seq<char>
    decreases s.len(),
{
    if s.len() == 0 {
        Seq::empty()
    } else {
        escaped(s.drop_last()) + escape_char(s.last())
    }
}

/// The cache key of a user looked up by e-mail address.
pub open spec fn email_key_of(email: Seq<char>) -> Seq<char> {
    "user_email:"@ + email
}

/// The cache key of a user looked up by id.
pub open spec fn id_key_of(id: i32) -> Seq<char> {
    "user:"@ + decimal(id as int)
}

/// The JSON object that stands for a user in the cache:
/// `{"id":7,"email":"..","hashed_password":".."}`.
pub open spec fn user_json(u: UserView) -> Seq<char> {
    "{\"id\":"@ + decimal(u.id as int) + ",\"email\":\""@ + escaped(u.email)
        + "\",\"hashed_password\":\""@ + escaped(u.hashed_password) + "\"}"@
}

fn digit_str(d: u32) -> (r: &'static str)
    requires
        d < 10,
    ensures
        r@ == seq![digit_char(d as nat)],
{
    proof {
        reveal_strlit("0");
        reveal_strlit("1");
        reveal_strlit("2");
        reveal_strlit("3");
        reveal_strlit("4");
        reveal_strlit("5");
        reveal_strlit("6");
        reveal_strlit("7");
        reveal_strlit("8");
        reveal_strlit("9");
    }
    if d == 0 { "0" }
    else if d == 1 { "1" }
    else if d == 2 { "2" }
    else if d == 3 { "3" }
    else if d == 4 { "4" }
    else if d == 5 { "5" }
    else if d == 6 { "6" }
    else if d == 7 { "7" }
    else if d == 8 { "8" }
    else { "9" }
}

fn write_digits(n: u32, out: &mut String)
    ensures
        final(out)@ == old(out)@ + digits(n as nat),
    decreases n,
{
    if n >= 10 {
        write_digits(n / 10, out);
    }
    out.append(digit_str(n % 10));
    proof {
        if n >= 10 {
            assert(digits(n as nat) == digits((n / 10) as nat).push(digit_char((n % 10) as nat)));
        } else {
            assert(n % 10 == n);
        }
    }
    assert(final(out)@ =~= old(out)@ + digits(n as nat));
}

fn write_decimal(i: i32, out: &mut String)
    ensures
        final(out)@ == old(out)@ + decimal(i as int),
{
    if i < 0 {
        proof {
            reveal_strlit("-");
        }
        out.append("-");
        let magnitude: u32 = (-(i as i64)) as u32;
        write_digits(magnitude, out);
    } else {
        write_digits(i as u32, out);
    }
    assert(final(out)@ =~= old(out)@ + decimal(i as int));
}

/// The decimal form of `i`, with a leading `-` when negative.
pub fn decimal_string(i: i32) -> (r: String)
    ensures
        r@ == decimal(i as int),
{
    let mut out = String::new();
    write_decimal(i, &mut out);
    assert(out@ =~= decimal(i as int));
    out
}

/// The cache key under which a user is kept by e-mail address.
pub fn email_cache_key(email: &str) -> (r: String)
    ensures
        r@ == email_key_of(email@),
{
    String::from_str("user_email:").concat(email)
}

/// The cache key under which a user is kept by id.
pub fn id_cache_key(id: i32) -> (r: String)
    ensures
        r@ == id_key_of(id),
{
    let mut out = String::from_str("user:");
    write_decimal(id, &mut out);
    out
}

fn hex_str(d: u32) -> (r: &'static str)
    requires
        d < 16,
    ensures
        r@ == seq![hex_digit(d as nat)],
{
    proof {
        reveal_strlit("0");
        reveal_strlit("1");
        reveal_strlit("2");
        reveal_strlit("3");
        reveal_strlit("4");
        reveal_strlit("5");
        reveal_strlit("6");
        reveal_strlit("7");
        reveal_strlit("8");
        reveal_strlit("9");
        reveal_strlit("a");
        reveal_strlit("b");
        reveal_strlit("c");
        reveal_strlit("d");
        reveal_strlit("e");
        reveal_strlit("f");
    }
    if d == 0 { "0" } else
    if d == 1 { "1" } else
    if d == 2 { "2" } else
    if d == 3 { "3" } else
    if d == 4 { "4" } else
    if d == 5 { "5" } else
    if d == 6 { "6" } else
    if d == 7 { "7" } else
    if d == 8 { "8" } else
    if d == 9 { "9" } else
    if d == 10 { "a" } else
    if d == 11 { "b" } else
    if d == 12 { "c" } else
    if d == 13 { "d" } else
    if d == 14 { "e" } else { "f" }
}

/// The one-character text of the control character `code`.
fn control_str(code: u32) -> (r: &'static str)
    requires
        code < 32,
    ensures
        r@ == seq![code as char],
{
    proof {
        reveal_strlit("\u{0}");
        reveal_strlit("\u{1}");
        reveal_strlit("\u{2}");
        reveal_strlit("\u{3}");
        reveal_strlit("\u{4}");
        reveal_strlit("\u{5}");
        reveal_strlit("\u{6}");
        reveal_strlit("\u{7}");
        reveal_strlit("\u{8}");
        reveal_strlit("\u{9}");
        reveal_strlit("\u{a}");
        reveal_strlit("\u{b}");
        reveal_strlit("\u{c}");
        reveal_strlit("\u{d}");
        reveal_strlit("\u{e}");
        reveal_strlit("\u{f}");
        reveal_strlit("\u{10}");
        reveal_strlit("\u{11}");
        reveal_strlit("\u{12}");
        reveal_strlit("\u{13}");
        reveal_strlit("\u{14}");
        reveal_strlit("\u{15}");
        reveal_strlit("\u{16}");
        reveal_strlit("\u{17}");
        reveal_strlit("\u{18}");
        reveal_strlit("\u{19}");
        reveal_strlit("\u{1a}");
        reveal_strlit("\u{1b}");
        reveal_strlit("\u{1c}");
        reveal_strlit("\u{1d}");
        reveal_strlit("\u{1e}");
        reveal_strlit("\u{1f}");
    }
    if code == 0 { "\u{0}" } else
    if code == 1 { "\u{1}" } else
    if code == 2 { "\u{2}" } else
    if code == 3 { "\u{3}" } else
    if code == 4 { "\u{4}" } else
    if code == 5 { "\u{5}" } else
    if code == 6 { "\u{6}" } else
    if code == 7 { "\u{7}" } else
    if code == 8 { "\u{8}" } else
    if code == 9 { "\u{9}" } else
    if code == 10 { "\u{a}" } else
    if code == 11 { "\u{b}" } else
    if code == 12 { "\u{c}" } else
    if code == 13 { "\u{d}" } else
    if code == 14 { "\u{e}" } else
    if code == 15 { "\u{f}" } else
    if code == 16 { "\u{10}" } else
    if code == 17 { "\u{11}" } else
    if code == 18 { "\u{12}" } else
    if code == 19 { "\u{13}" } else
    if code == 20 { "\u{14}" } else
    if code == 21 { "\u{15}" } else
    if code == 22 { "\u{16}" } else
    if code == 23 { "\u{17}" } else
    if code == 24 { "\u{18}" } else
    if code == 25 { "\u{19}" } else
    if code == 26 { "\u{1a}" } else
    if code == 27 { "\u{1b}" } else
    if code == 28 { "\u{1c}" } else
    if code == 29 { "\u{1d}" } else
    if code == 30 { "\u{1e}" } else { "\u{1f}" }
}

fn write_escaped(s: &str, out: &mut String)
    ensures
        final(out)@ == old(out)@ + escaped(s@),
{
    let n = s.unicode_len();
    let mut i: usize = 0;
    proof {
        reveal_strlit("\\\"");
        reveal_strlit("\\\\");
        assert(escaped(s@.take(0)) =~= Seq::<char>::empty());
    }
    assert(out@ =~= old(out)@ + escaped(s@.take(0)));
    while i < n
        invariant
            n == s@.len(),
            i <= n,
            out@ == old(out)@ + escaped(s@.take(i as int)),
        decreases n - i,
    {
        let c = s.get_char(i);
        proof {
            assert(s@.take(i + 1).drop_last() =~= s@.take(i as int));
            assert(s@.take(i + 1).last() == c);
            assert(escaped(s@.take(i + 1)) == escaped(s@.take(i as int)) + escape_char(c));
        }
        let ghost prev = out@;
        if c == '"' {
            out.append("\\\"");
            proof {
                reveal_strlit("\\\"");
            }
        } else if c == '\\' {
            out.append("\\\\");
            proof {
                reveal_strlit("\\\\");
            }
        } else if (c as u32) < 32 {
            out.append("\\u00");
            out.append(hex_str(c as u32 / 16));
            out.append(hex_str(c as u32 % 16));
            proof {
                reveal_strlit("\\u00");
            }
        } else {
            out.append(s.substring_char(i, i + 1));
        }
        assert(out@ =~= prev + escape_char(c));
        i = i + 1;
        assert(out@ =~= old(out)@ + escaped(s@.take(i as int)));
    }
    assert(s@.take(n as int) =~= s@);
}

/// The cache payload for `u`: a JSON object with its id, e-mail address and
/// password hash.
pub fn encode_user(u: &User) -> (r: String)
    ensures
        r@ == user_json(u@),
{
    let mut out = String::from_str("{\"id\":");
    write_decimal(u.id, &mut out);
    out.append(",\"email\":\"");
    write_escaped(u.email.as_str(), &mut out);
    out.append("\",\"hashed_password\":\"");
    write_escaped(u.hashed_password.as_str(), &mut out);
    out.append("\"}");
    assert(out@ =~= user_json(u@));
    out
}

proof fn lemma_escaped_concat(a: Seq<char>, b: Seq<char>)
    ensures
        escaped(a + b) == escaped(a) + escaped(b),
    decreases b.len(),
{
    if b.len() == 0 {
        assert(a + b =~= a);
        assert(escaped(a) + escaped(b) =~= escaped(a));
    } else {
        lemma_escaped_concat(a, b.drop_last());
        assert((a + b).drop_last() =~= a + b.drop_last());
        assert((a + b).last() == b.last());
        assert(escaped(a) + escaped(b.drop_last()) + escape_char(b.last()) =~= escaped(a) + (
        escaped(b.drop_last()) + escape_char(b.last())));
    }
}

/// `escaped(t)` read from the front: the first character's escape, then the
/// rest.
proof fn lemma_escaped_front(t: Seq<char>)
    requires
        t.len() > 0,
    ensures
        escaped(t) == escape_char(t[0]) + escaped(t.drop_first()),
{
    lemma_escaped_concat(seq![t[0]], t.drop_first());
    assert(seq![t[0]] + t.drop_first() =~= t);
    assert(seq![t[0]].drop_last() =~= Seq::<char>::empty());
    assert(escaped(Seq::<char>::empty()) =~= Seq::<char>::empty());
    assert(escaped(seq![t[0]]) =~= escape_char(t[0]));
}

proof fn lemma_char_from_code(a: char, b: char)
    requires
        a as u32 == b as u32,
    ensures
        a == b,
{
}

proof fn lemma_hex_digit(d: nat)
    requires
        d < 16,
    ensures
        hex_digit(d) as u32 == if d < 10 { 48 + d } else { 87 + d },
{
}

/// Two characters whose escapes both start `x` are the same character.
proof fn lemma_escape_char_unique(c1: char, c2: char, x: Seq<char>)
    requires
        escape_char(c1).len() <= x.len(),
        escape_char(c2).len() <= x.len(),
        forall|i: int| 0 <= i < escape_char(c1).len() ==> x[i] == escape_char(c1)[i],
        forall|i: int| 0 <= i < escape_char(c2).len() ==> x[i] == escape_char(c2)[i],
    ensures
        c1 == c2,
{
    let e1 = escape_char(c1);
    let e2 = escape_char(c2);
    assert(x[0] == e1[0] && x[0] == e2[0]);
    if e1.len() == 6 && e2.len() == 6 {
        assert(x[4] == e1[4] && x[4] == e2[4]);
        assert(x[5] == e1[5] && x[5] == e2[5]);
        let v1 = c1 as u32;
        let v2 = c2 as u32;
        lemma_hex_digit((v1 / 16) as nat);
        lemma_hex_digit((v1 % 16) as nat);
        lemma_hex_digit((v2 / 16) as nat);
        lemma_hex_digit((v2 % 16) as nat);
        assert(v1 / 16 == v2 / 16);
        assert(v1 % 16 == v2 % 16);
        assert(v1 == v2);
    } else if e1.len() >= 2 && e2.len() >= 2 {
        assert(x[1] == e1[1] && x[1] == e2[1]);
    }
}

/// A quoted string body followed by its closing quote can be read back in
/// one way only.
proof fn lemma_escaped_unique(a: Seq<char>, b: Seq<char>, x: Seq<char>)
    requires
        escaped(a).len() < x.len(),
        escaped(b).len() < x.len(),
        x.subrange(0, escaped(a).len() as int) == escaped(a),
        x.subrange(0, escaped(b).len() as int) == escaped(b),
        x[escaped(a).len() as int] == '"',
        x[escaped(b).len() as int] == '"',
    ensures
        a == b,
    decreases a.len(),
{
    if a.len() == 0 {
        assert(escaped(a) =~= Seq::<char>::empty());
        if b.len() > 0 {
            lemma_escaped_front(b);
            assert(x[0] == escaped(b)[0]);
        }
        assert(b =~= a);
    } else if b.len() == 0 {
        assert(escaped(b) =~= Seq::<char>::empty());
        lemma_escaped_front(a);
        assert(x[0] == escaped(a)[0]);
    } else {
        lemma_escaped_front(a);
        lemma_escaped_front(b);
        let ea = escape_char(a[0]);
        let eb = escape_char(b[0]);
        assert forall|i: int| 0 <= i < ea.len() implies x[i] == ea[i] by {
            assert(x[i] == escaped(a)[i]);
        }
        assert forall|i: int| 0 <= i < eb.len() implies x[i] == eb[i] by {
            assert(x[i] == escaped(b)[i]);
        }
        lemma_escape_char_unique(a[0], b[0], x);
        let k = ea.len() as int;
        let y = x.subrange(k, x.len() as int);
        let ra = escaped(a.drop_first());
        let rb = escaped(b.drop_first());
        assert forall|i: int| 0 <= i < ra.len() implies y[i] == ra[i] by {
            assert(x[k + i] == escaped(a)[k + i]);
        }
        assert forall|i: int| 0 <= i < rb.len() implies y[i] == rb[i] by {
            assert(x[k + i] == escaped(b)[k + i]);
        }
        assert(x[k + ra.len()] == '"');
        assert(x[k + rb.len()] == '"');
        assert(y.subrange(0, ra.len() as int) =~= ra);
        assert(y.subrange(0, rb.len() as int) =~= rb);
        lemma_escaped_unique(a.drop_first(), b.drop_first(), y);
        assert(a =~= seq![a[0]] + a.drop_first());
        assert(b =~= seq![b[0]] + b.drop_first());
    }
}

proof fn lemma_digits_value_prefix(ds: Seq<char>, k: int)
    requires
        0 <= k <= ds.len(),
        forall|i: int| 0 <= i < ds.len() ==> is_digit(#[trigger] ds[i]),
    ensures
        0 <= digits_value(ds.take(k)) <= digits_value(ds),
    decreases ds.len(),
{
    if ds.len() > 0 {
        let d = ds.drop_last();
        if k < ds.len() {
            lemma_digits_value_prefix(d, k);
            assert(d.take(k) =~= ds.take(k));
        } else {
            assert(ds.take(k) =~= ds);
            lemma_digits_value_prefix(d, d.len() as int);
            assert(d.take(d.len() as int) =~= d);
        }
    } else {
        assert(ds.take(k) =~= ds);
    }
}

/// A decimal followed by a character that is no digit can be read back in
/// one way only.
proof fn lemma_decimal_unique(x: i32, y: i32, s: Seq<char>)
    requires
        decimal(x as int).len() < s.len(),
        decimal(y as int).len() < s.len(),
        s.subrange(0, decimal(x as int).len() as int) == decimal(x as int),
        s.subrange(0, decimal(y as int).len() as int) == decimal(y as int),
        !is_digit(s[decimal(x as int).len() as int]),
        !is_digit(s[decimal(y as int).len() as int]),
    ensures
        x == y,
{
    let dx = decimal(x as int);
    let dy = decimal(y as int);
    let mx: nat = if x < 0 { (-x) as nat } else { x as nat };
    let my: nat = if y < 0 { (-y) as nat } else { y as nat };
    lemma_digits_shape(mx);
    lemma_digits_shape(my);
    let ox: int = if x < 0 { 1 } else { 0 };
    let oy: int = if y < 0 { 1 } else { 0 };
    assert forall|i: int| ox <= i < dx.len() implies is_digit(#[trigger] dx[i]) by {
        if x < 0 {
            assert(dx[i] == digits(mx)[i - 1]);
        }
    }
    assert forall|i: int| oy <= i < dy.len() implies is_digit(#[trigger] dy[i]) by {
        if y < 0 {
            assert(dy[i] == digits(my)[i - 1]);
        }
    }
    assert(s[0] == dx[0] && s[0] == dy[0]);
    assert(dx[0] == '-' <==> x < 0);
    assert(dy[0] == '-' <==> y < 0);
    assert(ox == oy);
    if dx.len() < dy.len() {
        assert(s[dx.len() as int] == dy[dx.len() as int]);
    } else if dy.len() < dx.len() {
        assert(s[dy.len() as int] == dx[dy.len() as int]);
    }
    assert(dx =~= dy);
    if x < 0 {
        assert(digits(mx) =~= dx.drop_first());
        assert(digits(my) =~= dy.drop_first());
    }
    assert(digits(mx) == digits(my));
}

/// The cache payload determines the user it was written for.
pub proof fn lemma_user_json_injective(v: UserView, w: UserView)
    requires
        user_json(v) == user_json(w),
    ensures
        v == w,
{
    reveal_strlit("{\"id\":");
    reveal_strlit(",\"email\":\"");
    reveal_strlit("\",\"hashed_password\":\"");
    reveal_strlit("\"}");
    let s = user_json(v);
    let lit_open = "{\"id\":"@;
    let lit_email = ",\"email\":\""@;
    let lit_hash = "\",\"hashed_password\":\""@;
    let lit_close = "\"}"@;
    let x1 = s.subrange(6, s.len() as int);
    assert(x1 =~= decimal(v.id as int) + lit_email + escaped(v.email) + lit_hash + escaped(v.hashed_password) + lit_close);
    assert(x1 =~= decimal(w.id as int) + lit_email + escaped(w.email) + lit_hash + escaped(w.hashed_password) + lit_close);
    assert(x1.subrange(0, decimal(v.id as int).len() as int) =~= decimal(v.id as int));
    assert(x1.subrange(0, decimal(w.id as int).len() as int) =~= decimal(w.id as int));
    assert(x1[decimal(v.id as int).len() as int] == ',');
    assert(x1[decimal(w.id as int).len() as int] == ',');
    lemma_decimal_unique(v.id, w.id, x1);
    let k: int = decimal(v.id as int).len() as int + 10;
    let x2 = x1.subrange(k, x1.len() as int);
    assert(x2 =~= escaped(v.email) + lit_hash + escaped(v.hashed_password) + lit_close);
    assert(x2 =~= escaped(w.email) + lit_hash + escaped(w.hashed_password) + lit_close);
    assert(x2.subrange(0, escaped(v.email).len() as int) =~= escaped(v.email));
    assert(x2.subrange(0, escaped(w.email).len() as int) =~= escaped(w.email));
    assert(x2[escaped(v.email).len() as int] == '"');
    assert(x2[escaped(w.email).len() as int] == '"');
    lemma_escaped_unique(v.email, w.email, x2);
    let j: int = escaped(v.email).len() as int + 21;
    let x3 = x2.subrange(j, x2.len() as int);
    assert(x3 =~= escaped(v.hashed_password) + lit_close);
    assert(x3 =~= escaped(w.hashed_password) + lit_close);
    assert(x3.subrange(0, escaped(v.hashed_password).len() as int) =~= escaped(v.hashed_password));
    assert(x3.subrange(0, escaped(w.hashed_password).len() as int) =~= escaped(w.hashed_password));
    assert(x3[escaped(v.hashed_password).len() as int] == '"');
    assert(x3[escaped(w.hashed_password).len() as int] == '"');
    lemma_escaped_unique(v.hashed_password, w.hashed_password, x3);
}

/// Whether `s` holds `lit` at `pos`.
fn text_at(s: &str, n: usize, pos: usize, lit: &str) -> (r: bool)
    requires
        n == s@.len(),
        pos <= n,
    ensures
        r ==> pos + lit@.len() <= n,
        (pos + lit@.len() <= n && s@.subrange(pos as int, pos + lit@.len()) == lit@) ==> r,
{
    let m = lit.unicode_len();
    if m > n - pos {
        return false;
    }
    let mut j: usize = 0;
    while j < m
        invariant
            m == lit@.len(),
            pos + m <= n,
            n == s@.len(),
            j <= m,
        decreases m - j,
    {
        if s.get_char(pos + j) != lit.get_char(j) {
            assert(s@.subrange(pos as int, pos + m)[j as int] == s@[pos + j]);
            return false;
        }
        j = j + 1;
    }
    true
}

/// `s` holds `decimal(v)` at `pos`, followed by a character that is no digit.
pub open spec fn decimal_at(s: Seq<char>, pos: int, v: i32) -> bool {
    let d = decimal(v as int);
    &&& pos + d.len() < s.len()
    &&& s.subrange(pos, pos + d.len()) == d
    &&& !is_digit(s[pos + d.len()])
}

/// `s` holds `escaped(t)` at `pos`, followed by a closing quote.
pub open spec fn quoted_at(s: Seq<char>, pos: int, t: Seq<char>) -> bool {
    let e = escaped(t);
    &&& pos + e.len() < s.len()
    &&& s.subrange(pos, pos + e.len()) == e
    &&& s[pos + e.len()] == '"'
}

/// Reads an optionally negative decimal that fits an `i32` at `pos`.
fn read_decimal(s: &str, n: usize, pos: usize, Ghost(v): Ghost<i32>) -> (r: Option<(i32, usize)>)
    requires
        n == s@.len(),
        pos <= n,
    ensures
        decimal_at(s@, pos as int, v) ==> r == Some((v, (pos + decimal(v as int).len()) as usize)),
        r matches Some((_, q)) ==> pos <= q <= n,
{
    let ghost canon = decimal_at(s@, pos as int, v);
    let ghost mag: nat = if v < 0 { (-v) as nat } else { v as nat };
    let ghost ds = digits(mag);
    let ghost d = decimal(v as int);
    proof {
        lemma_digits_shape(mag);
        if canon {
            assert(s@[pos as int] == s@.subrange(pos as int, pos + d.len())[0]);
        }
    }
    let mut neg = false;
    let mut start = pos;
    if pos < n && s.get_char(pos) == '-' {
        neg = true;
        start = pos + 1;
    }
    proof {
        if canon {
            assert(neg <==> v < 0);
            assert(start + ds.len() == pos + d.len());
            assert forall|i: int| 0 <= i < ds.len() implies s@[start + i] == ds[i] by {
                assert(s@[start + i] == s@.subrange(pos as int, pos + d.len())[start + i - pos]);
            }
        }
    }
    let mut j = start;
    let mut acc: u64 = 0;
    assert(s@.subrange(start as int, start as int) =~= Seq::<char>::empty());
    loop
        invariant
            n == s@.len(),
            pos <= start <= j <= n,
            acc <= 2147483648,
            acc == digits_value(s@.subrange(start as int, j as int)),
            canon == decimal_at(s@, pos as int, v),
            d == decimal(v as int),
            mag <= 2147483648,
            canon ==> (neg <==> v < 0),
            canon ==> start + ds.len() == pos + d.len(),
            canon ==> j <= start + ds.len(),
            canon ==> forall|i: int| 0 <= i < ds.len() ==> s@[start + i] == ds[i],
            forall|i: int| 0 <= i < ds.len() ==> is_digit(#[trigger] ds[i]),
            digits_value(ds) == mag,
        ensures
            pos <= start <= j <= n,
            acc == digits_value(s@.subrange(start as int, j as int)),
            canon ==> j == start + ds.len(),
        decreases n - j,
    {
        if j >= n {
            break;
        }
        let c = s.get_char(j);
        if !('0' <= c && c <= '9') {
            proof {
                if canon && j < start + ds.len() {
                    assert(s@[start + (j - start)] == ds[j - start]);
                }
            }
            break;
        }
        assert('0' as int == 48);
        let dv = (c as u32 - 48) as u64;
        let ghost before = s@.subrange(start as int, j as int);
        let ghost after = s@.subrange(start as int, j + 1);
        assert(after.drop_last() =~= before);
        assert(after.last() == c);
        let next = acc * 10 + dv;
        proof {
            if canon {
                if j == start + ds.len() {
                    assert(s@[pos + d.len()] == c);
                    assert(is_digit(c));
                    assert(false);
                }
                assert(after =~= ds.take(j + 1 - start));
                lemma_digits_value_prefix(ds, j + 1 - start);
                assert(digit_value(c) == dv as int);
                assert(digits_value(after) == acc * 10 + dv);
                assert(mag <= 2147483648);
                assert(next <= 2147483648);
            }
        }
        if next > 2147483648 {
            return None;
        }
        acc = next;
        j = j + 1;
    }
    if j == start {
        return None;
    }
    proof {
        if canon {
            assert forall|i: int| 0 <= i < ds.len() implies s@.subrange(start as int, j as int)[i] == ds[i] by {
                assert(s@[start + i] == ds[i]);
            }
            assert(s@.subrange(start as int, j as int) =~= ds);
        }
    }
    if neg {
        Some(((-(acc as i64)) as i32, j))
    } else if acc <= 2147483647 {
        Some((acc as i32, j))
    } else {
        None
    }
}

/// The value of a lowercase hexadecimal digit.
fn hex_value(c: char) -> (r: Option<u32>)
    ensures
        r matches Some(v) ==> v < 16 && hex_digit(v as nat) == c,
        forall|d: nat| d < 16 && hex_digit(d) == c ==> r == Some(d as u32),
{
    assert forall|d: nat| d < 16 && hex_digit(d) == c implies (if d < 10 {
        c as u32 == 48 + d
    } else {
        c as u32 == 87 + d
    }) by {
        lemma_hex_digit(d);
    }
    if '0' <= c && c <= '9' {
        let v = c as u32 - 48;
        assert(hex_digit(v as nat) as u32 == c as u32) by {
            lemma_hex_digit(v as nat);
        }
        Some(v)
    } else if 'a' <= c && c <= 'f' {
        let v = c as u32 - 87;
        assert(hex_digit(v as nat) as u32 == c as u32) by {
            lemma_hex_digit(v as nat);
        }
        Some(v)
    } else {
        None
    }
}

/// Reads the body of a quoted JSON string that starts at `pos`, up to (not
/// including) its closing quote.
fn read_quoted(s: &str, n: usize, pos: usize, Ghost(t): Ghost<Seq<char>>) -> (r: Option<(String, usize)>)
    requires
        n == s@.len(),
        pos <= n,
    ensures
        quoted_at(s@, pos as int, t) ==> (r matches Some((out, q)) && out@ == t && q == pos
            + escaped(t).len()),
        r matches Some((_, q)) ==> pos <= q < n,
{
    let ghost canon = quoted_at(s@, pos as int, t);
    let ghost e = escaped(t);
    let mut i = pos;
    let mut out = String::new();
    let ghost mut k: int = 0;
    assert(t.take(0) =~= Seq::<char>::empty());
    assert(escaped(t.take(0)) =~= Seq::<char>::empty());
    loop
        invariant
            n == s@.len(),
            pos <= i <= n,
            canon == quoted_at(s@, pos as int, t),
            e == escaped(t),
            canon ==> 0 <= k <= t.len(),
            canon ==> i == pos + escaped(t.take(k)).len(),
            canon ==> out@ == t.take(k),
        decreases n - i,
    {
        let ghost pre = t.take(k);
        let ghost rest = t.skip(k);
        proof {
            if canon {
                assert(t =~= pre + rest);
                lemma_escaped_concat(pre, rest);
                assert forall|m: int| 0 <= m < escaped(rest).len() implies s@[i + m] == escaped(
                    rest,
                )[m] by {
                    assert(s@[pos + (pre.len() + 0) * 0 + escaped(pre).len() + m] == s@.subrange(
                        pos as int,
                        pos + e.len(),
                    )[escaped(pre).len() + m]);
                }
                if k < t.len() {
                    lemma_escaped_front(rest);
                    assert(rest[0] == t[k]);
                    assert(t.take(k + 1).drop_last() =~= pre);
                    assert(escaped(t.take(k + 1)) == escaped(pre) + escape_char(t[k]));
                    assert(rest.drop_first() =~= t.skip(k + 1));
                } else {
                    assert(pre =~= t);
                }
            }
        }
        if i >= n {
            return None;
        }
        let c = s.get_char(i);
        if c == '"' {
            proof {
                if canon && k < t.len() {
                    assert(s@[i + 0] == escaped(rest)[0]);
                }
                if canon {
                    assert(t.take(k) =~= t);
                }
            }
            return Some((out, i));
        }
        if c == '\\' {
            if i + 1 >= n {
                return None;
            }
            proof {
                if canon {
                    assert(k < t.len());
                    assert(s@[i + 0] == escaped(rest)[0]);
                    assert(s@[i + 1] == escaped(rest)[1]);
                }
            }
            if s.get_char(i + 1) == 'u' {
                if n - i <= 5 {
                    return None;
                }
                proof {
                    if canon {
                        assert(escape_char(t[k]).len() == 6);
                        assert(s@[i + 2] == escaped(rest)[2]);
                        assert(s@[i + 3] == escaped(rest)[3]);
                        assert(s@[i + 4] == escaped(rest)[4]);
                        assert(s@[i + 5] == escaped(rest)[5]);
                    }
                }
                if s.get_char(i + 2) != '0' || s.get_char(i + 3) != '0' {
                    return None;
                }
                let hi = match hex_value(s.get_char(i + 4)) {
                    Some(h) => h,
                    None => {
                        return None;
                    },
                };
                let lo = match hex_value(s.get_char(i + 5)) {
                    Some(h) => h,
                    None => {
                        return None;
                    },
                };
                let code = hi * 16 + lo;
                if code >= 32 {
                    return None;
                }
                out.append(control_str(code));
                proof {
                    if canon {
                        let v = t[k] as u32;
                        assert(hi == v / 16);
                        assert(lo == v % 16);
                        assert(code == v);
                        assert((code as char) as u32 == code);
                        lemma_char_from_code(code as char, t[k]);
                        assert(out@ =~= t.take(k + 1));
                        k = k + 1;
                    }
                }
                i = i + 6;
            } else {
                out.append(s.substring_char(i + 1, i + 2));
                proof {
                    if canon {
                        assert(escape_char(t[k]).len() == 2);
                        assert(out@ =~= t.take(k + 1));
                        k = k + 1;
                    }
                }
                i = i + 2;
            }
        } else {
            out.append(s.substring_char(i, i + 1));
            proof {
                if canon {
                    assert(k < t.len());
                    assert(s@[i + 0] == escaped(rest)[0]);
                    assert(out@ =~= t.take(k + 1));
                    k = k + 1;
                }
            }
            i = i + 1;
        }
    }
}

/// The user whose cache payload `p` is, if it is one (there is at most one:
/// see `lemma_user_json_injective`).
pub open spec fn decoded(p: Seq<char>) -> Option<UserView> {
    if exists|v: UserView| user_json(v) == p {
        Some(choose|v: UserView| user_json(v) == p)
    } else {
        None
    }
}

/// Reads back a cache payload written by `encode_user`. Anything else
/// (another layout, a truncated or corrupted payload) yields `None`.
pub fn decode_user(s: &str) -> (r: Option<User>)
    ensures
        r matches Some(u) ==> user_json(u@) == s@,
        (exists|v: UserView| user_json(v) == s@) ==> r is Some,
        r matches Some(u) ==> decoded(s@) == Some(u@),
        r is None <==> decoded(s@) is None,
{
    let ghost canon = exists|v: UserView| user_json(v) == s@;
    let ghost v = choose|v: UserView| user_json(v) == s@;
    let n = s.unicode_len();
    proof {
        reveal_strlit("{\"id\":");
        reveal_strlit(",\"email\":\"");
        reveal_strlit("\",\"hashed_password\":\"");
        reveal_strlit("\"}");
    }
    let ghost d = decimal(v.id as int);
    let ghost e1 = escaped(v.email);
    let ghost e2 = escaped(v.hashed_password);
    let ghost q1: int = 6 + d.len() as int;
    let ghost q2: int = q1 + 10 + e1.len() as int;
    let ghost q3: int = q2 + 21 + e2.len() as int;
    proof {
        if canon {
            let lit_open = "{\"id\":"@;
            let lit_email = ",\"email\":\""@;
            let lit_hash = "\",\"hashed_password\":\""@;
            let lit_close = "\"}"@;
            assert(s@ =~= lit_open + d + lit_email + e1 + lit_hash + e2 + lit_close);
            assert(s@.subrange(0, 6) =~= lit_open);
            assert(s@.subrange(6, q1) =~= d);
            assert(s@[q1] == ',');
            assert(s@.subrange(q1, q1 + 10) =~= lit_email);
            assert(s@.subrange(q1 + 10, q2) =~= e1);
            assert(s@[q2] == '"');
            assert(s@.subrange(q2, q2 + 21) =~= lit_hash);
            assert(s@.subrange(q2 + 21, q3) =~= e2);
            assert(s@[q3] == '"');
            assert(s@.subrange(q3, q3 + 2) =~= lit_close);
            assert(q3 + 2 == s@.len());
        }
    }
    if !text_at(s, n, 0, "{\"id\":") {
        return None;
    }
    let (id, p) = match read_decimal(s, n, 6, Ghost(v.id)) {
        Some(x) => x,
        None => { return None; },
    };
    if !text_at(s, n, p, ",\"email\":\"") {
        return None;
    }
    let (email, p) = match read_quoted(s, n, p + 10, Ghost(v.email)) {
        Some(x) => x,
        None => { return None; },
    };
    if !text_at(s, n, p, "\",\"hashed_password\":\"") {
        return None;
    }
    let (hashed_password, _p) = match read_quoted(s, n, p + 21, Ghost(v.hashed_password)) {
        Some(x) => x,
        None => { return None; },
    };
    let u = User { id, email, hashed_password };
    let again = encode_user(&u);
    let whole = String::from_str(s);
    if again == whole {
        proof {
            let w = choose|w: UserView| user_json(w) == s@;
            lemma_user_json_injective(u@, w);
        }
        Some(u)
    } else {
        proof {
            if canon {
                assert(u@ == v);
            }
        }
        None
    }
}

} // verus!
