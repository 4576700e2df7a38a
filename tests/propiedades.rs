use hello_tiburona::{Address, Error, HelloContract, LARGO_MAXIMO};

fn contrato_con_admin(admin: &str) -> HelloContract {
    let mut c = HelloContract::new();
    c.initialize(Address::from_str(admin)).unwrap();
    c
}

#[test]
fn ultimo_saludo_ausente_hasta_el_primero() {
    let mut c = contrato_con_admin("GA");
    let u = Address::from_str("GU");
    assert_eq!(c.get_ultimo_saludo(&u), None);
    assert_eq!(c.hello(u.clone(), String::new(), true), Err(Error::NombreVacio));
    assert_eq!(c.get_ultimo_saludo(&u), None);
    c.hello(u.clone(), "Uno".to_string(), true).unwrap();
    assert_eq!(c.get_ultimo_saludo(&u), Some("Uno".to_string()));
    assert_eq!(c.hello(u.clone(), "x".repeat(33), true), Err(Error::NombreMuyLargo));
    assert_eq!(c.get_ultimo_saludo(&u), Some("Uno".to_string()));
    c.hello(u.clone(), "Dos".to_string(), true).unwrap();
    assert_eq!(c.get_ultimo_saludo(&u), Some("Dos".to_string()));
}

#[test]
fn contador_ignora_llamadas_fallidas() {
    let mut c = contrato_con_admin("GA");
    let u = Address::from_str("GU");
    c.hello(u.clone(), "Ana".to_string(), true).unwrap();
    assert_eq!(c.hello(u.clone(), String::new(), true), Err(Error::NombreVacio));
    assert_eq!(c.hello(u.clone(), "y".repeat(40), true), Err(Error::NombreMuyLargo));
    assert_eq!(c.hello(u.clone(), "Ana".to_string(), false), Err(Error::AutorizacionFallida));
    assert_eq!(c.get_contador(), 1);
    c.hello(u, "Eva".to_string(), true).unwrap();
    assert_eq!(c.get_contador(), 2);
}

#[test]
fn contador_cuenta_desde_el_ultimo_reset() {
    let admin = Address::from_str("GA");
    let mut c = contrato_con_admin("GA");
    let u = Address::from_str("GU");
    c.hello(u.clone(), "a".to_string(), true).unwrap();
    c.hello(u.clone(), "b".to_string(), true).unwrap();
    c.reset_contador(&admin, true).unwrap();
    c.hello(u.clone(), "c".to_string(), true).unwrap();
    assert_eq!(c.get_contador(), 1);
}

#[test]
fn hello_antes_de_inicializar_se_cuenta_y_se_olvida() {
    let mut c = HelloContract::new();
    let u = Address::from_str("GU");
    c.hello(u.clone(), "a".to_string(), true).unwrap();
    assert_eq!(c.get_contador(), 1);
    c.initialize(Address::from_str("GA")).unwrap();
    assert_eq!(c.get_contador(), 0);
    assert_eq!(c.get_ultimo_saludo(&u), Some("a".to_string()));
}

#[test]
fn segunda_inicializacion_no_cambia_nada() {
    let primero = Address::from_str("GA");
    let segundo = Address::from_str("GB");
    let mut c = contrato_con_admin("GA");
    c.hello(Address::from_str("GU"), "Ana".to_string(), true).unwrap();
    assert_eq!(c.initialize(segundo.clone()), Err(Error::YaInicializado));
    assert_eq!(c.get_contador(), 1);
    assert_eq!(c.reset_contador(&segundo, true), Err(Error::NoAutorizado));
    assert_eq!(c.reset_contador(&primero, true), Ok(()));
}

#[test]
fn reset_sin_inicializar() {
    let mut c = HelloContract::new();
    let a = Address::from_str("GA");
    assert_eq!(c.reset_contador(&a, true), Err(Error::NoInicializado));
    assert_eq!(c.reset_contador(&a, false), Err(Error::NoInicializado));
}

#[test]
fn reset_sin_autorizacion() {
    let admin = Address::from_str("GA");
    let mut c = contrato_con_admin("GA");
    c.hello(Address::from_str("GU"), "Ana".to_string(), true).unwrap();
    assert_eq!(c.reset_contador(&admin, false), Err(Error::AutorizacionFallida));
    assert_eq!(c.reset_contador(&Address::from_str("GB"), false), Err(Error::AutorizacionFallida));
    assert_eq!(c.get_contador(), 1);
}

#[test]
fn reset_conserva_los_saludos() {
    let admin = Address::from_str("GA");
    let u = Address::from_str("GU");
    let mut c = contrato_con_admin("GA");
    c.hello(u.clone(), "Ana".to_string(), true).unwrap();
    c.reset_contador(&admin, true).unwrap();
    assert_eq!(c.get_contador(), 0);
    assert_eq!(c.get_ultimo_saludo(&u), Some("Ana".to_string()));
}

#[test]
fn hello_sin_autorizacion() {
    let mut c = contrato_con_admin("GA");
    let u = Address::from_str("GU");
    assert_eq!(c.hello(u.clone(), "Ana".to_string(), false), Err(Error::AutorizacionFallida));
    assert_eq!(c.get_contador(), 0);
    assert_eq!(c.get_ultimo_saludo(&u), None);
}

#[test]
fn limites_del_nombre() {
    let mut c = contrato_con_admin("GA");
    let u = Address::from_str("GU");
    assert_eq!(LARGO_MAXIMO, 32);
    assert_eq!(c.hello(u.clone(), "a".repeat(31), true), Ok("Hola".to_string()));
    assert_eq!(c.hello(u.clone(), "b".repeat(32), true), Ok("Hola".to_string()));
    assert_eq!(c.get_ultimo_saludo(&u), Some("b".repeat(32)));
    assert_eq!(c.hello(u.clone(), "c".repeat(33), true), Err(Error::NombreMuyLargo));
    assert_eq!(c.get_contador(), 2);
}

#[test]
fn el_limite_cuenta_caracteres() {
    let mut c = contrato_con_admin("GA");
    let u = Address::from_str("GU");
    let acentos = "é".repeat(32);
    assert_eq!(acentos.len(), 64);
    assert_eq!(c.hello(u.clone(), acentos.clone(), true), Ok("Hola".to_string()));
    assert_eq!(c.get_ultimo_saludo(&u), Some(acentos));
    assert_eq!(c.hello(u, "ñ".repeat(33), true), Err(Error::NombreMuyLargo));
}

#[test]
fn direcciones_distintas_no_se_mezclan() {
    let mut c = contrato_con_admin("GA");
    let u1 = Address::from_str("GU1");
    let u2 = Address::from_str("GU2");
    c.hello(u1.clone(), "Uno".to_string(), true).unwrap();
    assert_eq!(c.get_ultimo_saludo(&u2), None);
    c.hello(u2.clone(), "Dos".to_string(), true).unwrap();
    assert_eq!(c.get_ultimo_saludo(&u1), Some("Uno".to_string()));
    assert_eq!(c.get_ultimo_saludo(&u2), Some("Dos".to_string()));
}

#[test]
fn direcciones_por_bytes() {
    let a = Address::from_bytes(vec![71, 65]);
    let b = Address::from_str("GA");
    let c = Address::from_str("GAB");
    assert!(a.same_as(&b));
    assert!(a == b);
    assert!(!a.same_as(&c));
    assert!(!Address::from_str("GB").same_as(&b));
    assert_eq!(b.as_bytes(), &[71u8, 65u8][..]);
}

#[test]
fn restaurar_carga_admin_y_contador() {
    let admin = Address::from_str("GA");
    let mut c = HelloContract::restaurar(Some(admin.clone()), 7);
    assert_eq!(c.get_contador(), 7);
    assert_eq!(c.initialize(Address::from_str("GB")), Err(Error::YaInicializado));
    c.hello(Address::from_str("GU"), "Ana".to_string(), true).unwrap();
    assert_eq!(c.get_contador(), 8);
    assert_eq!(c.reset_contador(&admin, true), Ok(()));
    assert_eq!(c.get_contador(), 0);
    let mut vacio = HelloContract::restaurar(None, 0);
    assert_eq!(vacio.reset_contador(&admin, true), Err(Error::NoInicializado));
}
