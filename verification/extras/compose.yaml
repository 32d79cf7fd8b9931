services:
  aomori:
    build: .
    image: aomori:local
    restart: unless-stopped
    ports:
      - "${AOMORI_PUBLISH_ADDRESS:-127.0.0.1}:${AOMORI_PORT:-8091}:8091"
    environment:
      AOMORI_ADMIN_TOKEN: "${AOMORI_ADMIN_TOKEN:?set AOMORI_ADMIN_TOKEN in .env}"
      AOMORI_CORS_ORIGINS: "${AOMORI_CORS_ORIGINS:-http://127.0.0.1:5173,http://localhost:5173}"
      AOMORI_TRUSTED_PROXIES: "${AOMORI_TRUSTED_PROXIES:-}"
    read_only: true
    cap_drop:
      - ALL
    security_opt:
      - no-new-privileges:true
    volumes:
      - aomori-data:/data
    tmpfs:
      - /tmp:size=16m,mode=1777
    stop_grace_period: 20s

volumes:
  aomori-data:
