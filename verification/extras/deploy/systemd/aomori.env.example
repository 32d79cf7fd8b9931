# Environment for the aomori systemd unit. Install as /etc/aomori/aomori.env
# (root-owned, mode 0600) and replace every placeholder before starting.

# Bearer token for the administrator RPC methods.
AOMORI_ADMIN_TOKEN=replace-with-a-long-random-token

# Exact browser origins allowed by CORS, comma separated.
AOMORI_CORS_ORIGINS=https://mud.example.com

# Exact proxy IPs whose X-Forwarded-For entries are trusted, comma separated.
AOMORI_TRUSTED_PROXIES=

# RPC requests per second and burst size for each client.
AOMORI_RPC_RATE_LIMIT=100
