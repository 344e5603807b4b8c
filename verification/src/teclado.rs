//! The keyboard: from codes of keys to characters.
use vstd::prelude::*;

use crate::tarefas::fila::Fila;

verus! {

/// How many characters may wait to be read.
pub const CAPACIDADE: usize = 64;

/// How many codes have an entry in the tables.
pub const CODIGOS: usize = 58;

/// The code of the escape key, which gives no character.
pub const ESC: u8 = 1;

/// The code of the left shift key.
pub const SHIFT_ESQ: u8 = 42;

/// The code of the right shift key.
pub const SHIFT_DIR: u8 = 54;

/// What each code gives without shift, as ASCII; zero is for a key without a
/// character. The layout is the American one.
pub const SEM_SHIFT: [u8; 58] = [
    0x00, 0x00, 0x31, 0x32, 0x33, 0x34, 0x35, 0x36, 0x37, 0x38,
    0x39, 0x30, 0x2d, 0x3d, 0x08, 0x09, 0x71, 0x77, 0x65, 0x72,
    0x74, 0x79, 0x75, 0x69, 0x6f, 0x70, 0x5b, 0x5d, 0x0a, 0x00,
    0x61, 0x73, 0x64, 0x66, 0x67, 0x68, 0x6a, 0x6b, 0x6c, 0x3b,
    0x27, 0x60, 0x00, 0x5c, 0x7a, 0x78, 0x63, 0x76, 0x62, 0x6e,
    0x6d, 0x2c, 0x2e, 0x2f, 0x00, 0x2a, 0x00, 0x20,
];

/// What each code gives with shift.
pub const COM_SHIFT: [u8; 58] = [
    0x00, 0x00, 0x21, 0x40, 0x23, 0x24, 0x25, 0x5e, 0x26, 0x2a,
    0x28, 0x29, 0x5f, 0x2b, 0x08, 0x09, 0x51, 0x57, 0x45, 0x52,
    0x54, 0x59, 0x55, 0x49, 0x4f, 0x50, 0x7b, 0x7d, 0x0a, 0x00,
    0x41, 0x53, 0x44, 0x46, 0x47, 0x48, 0x4a, 0x4b, 0x4c, 0x3a,
    0x22, 0x7e, 0x00, 0x7c, 0x5a, 0x58, 0x43, 0x56, 0x42, 0x4e,
    0x4d, 0x3c, 0x3e, 0x3f, 0x00, 0x2a, 0x00, 0x20,
];

/// The character of a code.
pub open spec fn caractere_de(codigo: u8, shift: bool) -> Option<char> {
    if codigo == ESC || codigo >= CODIGOS {
        None
    } else {
        let bruto = if shift {
            COM_SHIFT@[codigo as int]
        } else {
            SEM_SHIFT@[codigo as int]
        };
        if bruto == 0 {
            None
        } else {
            Some(bruto as char)
        }
    }
}

/// The keyboard: what was typed and not read yet.
pub struct Teclado {
    fila: Fila<char, CAPACIDADE>,
    shift_esq: bool,
    shift_dir: bool,
    pressionadas: u64,
}

impl Teclado {
    /// The characters that wait, the oldest first.
    pub closed spec fn fila(&self) -> Seq<char> {
        self.fila@
    }

    /// The left shift key is down.
    pub closed spec fn shift_esq(&self) -> bool {
        self.shift_esq
    }

    /// The right shift key is down.
    pub closed spec fn shift_dir(&self) -> bool {
        self.shift_dir
    }

    /// One of the two shift keys is down.
    pub open spec fn shift(&self) -> bool {
        self.shift_esq() || self.shift_dir()
    }

    /// How many keys gave a character, modulo the width of the counter.
    pub closed spec fn contadas(&self) -> u64 {
        self.pressionadas
    }

    /// How many characters found no room, up to the width of the counter.
    pub closed spec fn perdidos(&self) -> u64 {
        self.fila.recusados()
    }

    pub closed spec fn wf(&self) -> bool {
        self.fila.wf()
    }

    /// A keyboard on which nobody typed.
    pub fn novo() -> (r: Teclado)
        ensures
            r.wf(),
            r.fila() == Seq::<char>::empty(),
            !r.shift_esq(),
            !r.shift_dir(),
            r.contadas() == 0,
            r.perdidos() == 0,
    {
        Teclado { fila: Fila::nova(), shift_esq: false, shift_dir: false, pressionadas: 0 }
    }
}

/// The character that a code gives with the shift as it is.
pub fn caractere(t: &Teclado, codigo_da_tecla: u8) -> (r: Option<char>)
    ensures
        r == caractere_de(codigo_da_tecla, t.shift()),
{
    if codigo_da_tecla == ESC || codigo_da_tecla as usize >= CODIGOS {
        return None;
    }
    let bruto: u8 = if t.shift_esq || t.shift_dir {
        let tabela = COM_SHIFT;
        tabela[codigo_da_tecla as usize]
    } else {
        let tabela = SEM_SHIFT;
        tabela[codigo_da_tecla as usize]
    };
    if bruto == 0 {
        None
    } else {
        Some(bruto as char)
    }
}

/// A key went down or up. Only a key that goes down gives a character, and the
/// keys of shift only change the shift.
pub fn evento(t: &mut Teclado, codigo_da_tecla: u8, pressionada: bool)
    requires
        old(t).wf(),
    ensures
        final(t).wf(),
        if codigo_da_tecla == SHIFT_ESQ || codigo_da_tecla == SHIFT_DIR {
            &&& final(t).shift_esq() == if codigo_da_tecla == SHIFT_ESQ {
                pressionada
            } else {
                old(t).shift_esq()
            }
            &&& final(t).shift_dir() == if codigo_da_tecla == SHIFT_DIR {
                pressionada
            } else {
                old(t).shift_dir()
            }
            &&& final(t).fila() == old(t).fila()
            &&& final(t).contadas() == old(t).contadas()
            &&& final(t).perdidos() == old(t).perdidos()
        } else {
            &&& final(t).shift_esq() == old(t).shift_esq()
            &&& final(t).shift_dir() == old(t).shift_dir()
            &&& match caractere_de(codigo_da_tecla, old(t).shift()) {
                Some(c) => if pressionada {
                    &&& final(t).contadas() == old(t).contadas().wrapping_add(1)
                    &&& if old(t).fila().len() < CAPACIDADE {
                        &&& final(t).fila() == old(t).fila().push(c)
                        &&& final(t).perdidos() == old(t).perdidos()
                    } else {
                        &&& final(t).fila() == old(t).fila()
                        &&& final(t).perdidos() == old(t).perdidos().wrapping_add(1)
                    }
                } else {
                    *final(t) == *old(t)
                },
                None => *final(t) == *old(t),
            }
        },
{
    if codigo_da_tecla == SHIFT_ESQ {
        t.shift_esq = pressionada;
        return;
    }
    if codigo_da_tecla == SHIFT_DIR {
        t.shift_dir = pressionada;
        return;
    }
    if !pressionada {
        return;
    }
    let c: char = match caractere(t, codigo_da_tecla) {
        None => {
            return;
        },
        Some(c) => c,
    };
    t.pressionadas = t.pressionadas.wrapping_add(1);
    let _ = t.fila.enfileirar(c);
}

/// Takes the oldest character that waits.
pub fn ler(t: &mut Teclado) -> (r: Option<char>)
    requires
        old(t).wf(),
    ensures
        final(t).wf(),
        final(t).shift_esq() == old(t).shift_esq(),
        final(t).shift_dir() == old(t).shift_dir(),
        final(t).contadas() == old(t).contadas(),
        final(t).perdidos() == old(t).perdidos(),
        match r {
            Some(c) => old(t).fila().len() > 0 && c == old(t).fila()[0] && final(t).fila() == old(t).fila().drop_first(),
            None => old(t).fila().len() == 0 && final(t).fila() == old(t).fila(),
        },
{
    t.fila.desenfileirar()
}

/// How many keys gave a character.
pub fn pressionadas(t: &Teclado) -> (r: u64)
    ensures
        r == t.contadas(),
{
    t.pressionadas
}

/// How many characters found no room.
pub fn descartados(t: &Teclado) -> (r: u64)
    ensures
        r == t.perdidos(),
{
    t.fila.descartados()
}

/// How many characters wait.
pub fn esperando(t: &Teclado) -> (r: usize)
    ensures
        r == t.fila().len(),
{
    t.fila.ocupacao()
}

/// Forgets what waits, and the shift.
pub fn esvaziar(t: &mut Teclado)
    requires
        old(t).wf(),
    ensures
        final(t).wf(),
        final(t).fila() == Seq::<char>::empty(),
        !final(t).shift_esq(),
        !final(t).shift_dir(),
        final(t).contadas() == old(t).contadas(),
        final(t).perdidos() == old(t).perdidos(),
{
    while esperando(t) > 0
        invariant
            t.wf(),
            t.contadas() == old(t).contadas(),
            t.perdidos() == old(t).perdidos(),
        decreases t.fila().len(),
    {
        let _ = ler(t);
    }
    t.shift_esq = false;
    t.shift_dir = false;
    proof {
        assert(t.fila() =~= Seq::<char>::empty());
    }
}

/// Both tables speak of the same keys: a key gives a character with shift
/// exactly where it gives one without.
pub proof fn lei_mesmo_teclado(codigo: u8)
    ensures
        caractere_de(codigo, true) is Some <==> caractere_de(codigo, false) is Some,
{
}

/// The rows of the keyboard without shift and with it, each from its first code on.
pub proof fn lei_fileiras(i: int)
    ensures
        0 <= i < 12 ==> caractere_de((2 + i) as u8, false) == Some("1234567890-="@[i]),
        0 <= i < 12 ==> caractere_de((2 + i) as u8, true) == Some("!@#$%^&*()_+"@[i]),
        0 <= i < 12 ==> caractere_de((16 + i) as u8, false) == Some("qwertyuiop[]"@[i]),
        0 <= i < 12 ==> caractere_de((16 + i) as u8, true) == Some("QWERTYUIOP{}"@[i]),
        0 <= i < 12 ==> caractere_de((30 + i) as u8, false) == Some("asdfghjkl;'`"@[i]),
        0 <= i < 12 ==> caractere_de((30 + i) as u8, true) == Some("ASDFGHJKL:\"~"@[i]),
        0 <= i < 11 ==> caractere_de((43 + i) as u8, false) == Some("\\zxcvbnm,./"@[i]),
        0 <= i < 11 ==> caractere_de((43 + i) as u8, true) == Some("|ZXCVBNM<>?"@[i]),
{
    reveal_strlit("1234567890-=");
    reveal_strlit("!@#$%^&*()_+");
    reveal_strlit("qwertyuiop[]");
    reveal_strlit("QWERTYUIOP{}");
    reveal_strlit("asdfghjkl;'`");
    reveal_strlit("ASDFGHJKL:\"~");
    reveal_strlit("\\zxcvbnm,./");
    reveal_strlit("|ZXCVBNM<>?");
}

/// A letter with shift is the same letter, large.
pub proof fn lei_maiusculas(codigo: u8)
    ensures
        caractere_de(codigo, false) is Some && 'a' <= caractere_de(codigo, false)->0 <= 'z'
            ==> caractere_de(codigo, true) is Some && caractere_de(codigo, true)->0 as int
            == caractere_de(codigo, false)->0 as int - 32,
{
}

} // verus!
