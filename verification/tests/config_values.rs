use slink::config::{DbConfig, GeneralConfig, ServerConfig};

#[test]
fn config_carries_its_fields() {
    let cfg = ServerConfig {
        general: GeneralConfig { addr: "127.0.0.1:9527".to_string() },
        db: DbConfig { db_conn: "mysql://localhost/slinks".to_string() },
    };
    assert_eq!(cfg.general.addr, "127.0.0.1:9527");
    assert_eq!(cfg.db.db_conn, "mysql://localhost/slinks");
    let copy = cfg.clone();
    assert_eq!(copy, cfg);
}
